use vstd::prelude::*;

use crate::frame::{bit_of, HEADER_BITS, SYNC_BYTE};
use crate::timing::{classify_pulse, pulse_bit};

verus! {

/// Where the receiver stands within a frame.
#[derive(Clone, Copy, PartialEq, Eq, Structural, Debug)]
pub enum Phase {
    /// Counting consecutive `0` bits until a whole header has been seen.
    Seeking,
    /// Reading the sync byte.
    Sync,
    /// Reading the length byte.
    Length,
    /// Reading payload bytes.
    Payload,
    /// A whole frame has been read.
    Done,
    /// The frame was rejected.
    Failed,
}

/// Mathematical state of a frame receiver.
pub struct RxModel {
    pub phase: Phase,
    /// Consecutive `0` bits seen while seeking the header.
    pub run: nat,
    /// Bits of the current byte read so far.
    pub nbits: nat,
    /// The current byte, from the bits read so far.
    pub acc: u8,
    /// Announced payload length.
    pub len: nat,
    /// Payload bytes read so far.
    pub payload: Seq<u8>,
    /// Most payload bytes that the caller can take.
    pub cap: nat,
}

/// Outcome of feeding bits to a receiver.
#[derive(Clone, Copy, PartialEq, Eq, Structural, Debug)]
pub enum Reception {
    /// More bits are needed.
    Incomplete,
    /// A frame with a payload of this many bytes was read.
    Frame(u8),
    /// The frame was rejected: bad sync byte, length over capacity, or an
    /// invalid bit after the header.
    Rejected,
}

/// A receiver that has seen nothing yet.
pub open spec fn rx_init(cap: nat) -> RxModel {
    RxModel {
        phase: Phase::Seeking,
        run: 0,
        nbits: 0,
        acc: 0,
        len: 0,
        payload: Seq::empty(),
        cap,
    }
}

/// The byte `acc` with bit `i` set when `v` holds.
pub open spec fn add_bit(acc: u8, i: nat, v: bool) -> u8 {
    if v {
        acc | (1u8 << (i as u8))
    } else {
        acc
    }
}

/// State after a whole byte has been read in state `s`.
pub open spec fn accept_byte(s: RxModel, byte: u8) -> RxModel {
    match s.phase {
        Phase::Sync => {
            if byte == 0x55 {
                RxModel { phase: Phase::Length, ..s }
            } else {
                RxModel { phase: Phase::Failed, ..s }
            }
        },
        Phase::Length => {
            if byte > s.cap {
                RxModel { phase: Phase::Failed, ..s }
            } else if byte == 0 {
                RxModel { phase: Phase::Done, len: 0, ..s }
            } else {
                RxModel { phase: Phase::Payload, len: byte as nat, ..s }
            }
        },
        Phase::Payload => {
            let p = s.payload.push(byte);
            if p.len() >= s.len {
                RxModel { phase: Phase::Done, payload: p, ..s }
            } else {
                RxModel { payload: p, ..s }
            }
        },
        _ => s,
    }
}

/// State after one bit reading, `None` standing for an invalid pulse.
pub open spec fn rx_step(s: RxModel, bit: Option<bool>) -> RxModel {
    match s.phase {
        Phase::Done | Phase::Failed => s,
        Phase::Seeking => {
            if bit == Some(false) {
                if s.run + 1 >= 24 {
                    RxModel { phase: Phase::Sync, run: 0, nbits: 0, acc: 0, ..s }
                } else {
                    RxModel { run: s.run + 1, ..s }
                }
            } else {
                RxModel { run: 0, ..s }
            }
        },
        _ => match bit {
            None => RxModel { phase: Phase::Failed, ..s },
            Some(v) => {
                let acc = add_bit(s.acc, s.nbits, v);
                if s.nbits + 1 >= 8 {
                    accept_byte(RxModel { nbits: 0, acc: 0, ..s }, acc)
                } else {
                    RxModel { nbits: s.nbits + 1, acc, ..s }
                }
            },
        },
    }
}

/// State after a sequence of bit readings, in order.
pub open spec fn rx_run(s: RxModel, bits: Seq<Option<bool>>) -> RxModel
    decreases bits.len(),
{
    if bits.len() == 0 {
        s
    } else {
        rx_step(rx_run(s, bits.drop_last()), bits.last())
    }
}

/// What a receiver in state `s` reports.
pub open spec fn reception_of(s: RxModel) -> Reception {
    match s.phase {
        Phase::Done => Reception::Frame(s.payload.len() as u8),
        Phase::Failed => Reception::Rejected,
        _ => Reception::Incomplete,
    }
}

/// The bit readings of a sequence of measured high times.
pub open spec fn pulse_bits(pulses: Seq<u16>) -> Seq<Option<bool>> {
    pulses.map_values(|d: u16| pulse_bit(d as int))
}

/// Receiver of one frame, fed one bit reading at a time.
pub struct FrameDecoder {
    phase: Phase,
    run: u8,
    nbits: u8,
    acc: u8,
    len: u8,
    payload: Vec<u8>,
    cap: usize,
}

impl View for FrameDecoder {
    type V = RxModel;

    closed spec fn view(&self) -> RxModel {
        RxModel {
            phase: self.phase,
            run: self.run as nat,
            nbits: self.nbits as nat,
            acc: self.acc,
            len: self.len as nat,
            payload: self.payload@,
            cap: self.cap as nat,
        }
    }
}

/// Bounds that every reachable receiver state keeps.
pub open spec fn rx_wf(s: RxModel) -> bool {
    &&& s.run < 24
    &&& s.nbits < 8
    &&& s.len <= 255
    &&& s.payload.len() <= s.len
    &&& (s.phase == Phase::Seeking || s.phase == Phase::Sync || s.phase == Phase::Length
        ==> s.payload.len() == 0)
    &&& (s.phase == Phase::Payload ==> s.payload.len() < s.len)
    &&& (s.phase == Phase::Done ==> s.payload.len() == s.len)
    &&& (s.phase == Phase::Done || s.phase == Phase::Payload ==> s.len <= s.cap)
}

impl FrameDecoder {
    pub open spec fn wf(&self) -> bool {
        rx_wf(self@)
    }

    /// A receiver seeking a header, for a payload of at most `cap` bytes.
    pub fn new(cap: usize) -> (r: FrameDecoder)
        ensures
            r@ == rx_init(cap as nat),
            r.wf(),
    {
        FrameDecoder { phase: Phase::Seeking, run: 0, nbits: 0, acc: 0, len: 0, payload: Vec::new(), cap }
    }

    /// Feeds one bit reading (`None` for an invalid pulse) and reports where
    /// the frame stands.
    pub fn push_bit(&mut self, bit: Option<bool>) -> (r: Reception)
        requires
            old(self).wf(),
        ensures
            final(self)@ == rx_step(old(self)@, bit),
            final(self).wf(),
            r == reception_of(final(self)@),
    {
        match self.phase {
            Phase::Done | Phase::Failed => {},
            Phase::Seeking => {
                if bit == Some(false) {
                    if self.run + 1 >= HEADER_BITS {
                        self.phase = Phase::Sync;
                        self.run = 0;
                        self.nbits = 0;
                        self.acc = 0;
                    } else {
                        self.run = self.run + 1;
                    }
                } else {
                    self.run = 0;
                }
            },
            _ => match bit {
                None => {
                    self.phase = Phase::Failed;
                },
                Some(v) => {
                    let acc = if v {
                        self.acc | (1u8 << self.nbits)
                    } else {
                        self.acc
                    };
                    if self.nbits + 1 >= 8 {
                        self.nbits = 0;
                        self.acc = 0;
                        self.accept_byte(acc);
                    } else {
                        self.nbits = self.nbits + 1;
                        self.acc = acc;
                    }
                },
            },
        }
        self.reception()
    }

    fn accept_byte(&mut self, byte: u8)
        requires
            rx_wf(RxModel { nbits: 1, ..old(self)@ }),
            old(self).nbits == 0,
        ensures
            final(self)@ == accept_byte(old(self)@, byte),
            final(self).wf(),
    {
        match self.phase {
            Phase::Sync => {
                if byte == SYNC_BYTE {
                    self.phase = Phase::Length;
                } else {
                    self.phase = Phase::Failed;
                }
            },
            Phase::Length => {
                if byte as usize > self.cap {
                    self.phase = Phase::Failed;
                } else if byte == 0 {
                    self.phase = Phase::Done;
                    self.len = 0;
                } else {
                    self.phase = Phase::Payload;
                    self.len = byte;
                }
            },
            Phase::Payload => {
                self.payload.push(byte);
                if self.payload.len() >= self.len as usize {
                    self.phase = Phase::Done;
                }
            },
            _ => {},
        }
    }

    /// What the receiver reports in its present state.
    pub fn reception(&self) -> (r: Reception)
        requires
            self.wf(),
        ensures
            r == reception_of(self@),
    {
        match self.phase {
            Phase::Done => Reception::Frame(self.payload.len() as u8),
            Phase::Failed => Reception::Rejected,
            _ => Reception::Incomplete,
        }
    }

    /// Copies a complete payload into the front of `buffer` and returns its
    /// length. Leaves `buffer` as it was, and returns `None`, when no whole
    /// frame has been read or the payload does not fit.
    pub fn write_payload(&self, buffer: &mut [u8]) -> (r: Option<u8>)
        requires
            self.wf(),
        ensures
            self@.phase == Phase::Done && self@.payload.len() <= old(buffer)@.len() ==> {
                &&& r == Some(self@.payload.len() as u8)
                &&& final(buffer)@ == self@.payload + old(buffer)@.skip(self@.payload.len() as int)
            },
            !(self@.phase == Phase::Done && self@.payload.len() <= old(buffer)@.len()) ==> {
                &&& r is None
                &&& final(buffer)@ == old(buffer)@
            },
    {
        if self.phase != Phase::Done || self.payload.len() > buffer.len() {
            return None;
        }
        let n = self.payload.len();
        let mut i: usize = 0;
        while i < n
            invariant
                n == self.payload@.len(),
                n <= buffer@.len(),
                buffer@.len() == old(buffer)@.len(),
                0 <= i <= n,
                forall|k: int| 0 <= k < i ==> buffer@[k] == self.payload@[k],
                forall|k: int| i <= k < buffer@.len() ==> buffer@[k] == old(buffer)@[k],
            decreases n - i,
        {
            buffer[i] = self.payload[i];
            i = i + 1;
        }
        assert(buffer@ =~= self@.payload + old(buffer)@.skip(n as int));
        Some(n as u8)
    }
}

/// Setting bit `k` of `a` changes bit `k` alone.
pub proof fn lemma_set_bit(a: u8, k: u8, i: u8)
    requires
        k < 8,
        i < 8,
    ensures
        bit_of(a | (1u8 << k), i as int) == (bit_of(a, i as int) || i == k),
{
    assert((((a | (1u8 << k)) >> i) & 1u8 != 0) == ((((a >> i) & 1u8) != 0) || i == k))
        by (bit_vector)
        requires
            k < 8u8,
            i < 8u8,
    ;
}

/// A byte is fixed by its eight bits.
pub proof fn lemma_bits_determine_byte(a: u8, b: u8)
    requires
        forall|i: int| 0 <= i < 8 ==> bit_of(a, i) == bit_of(b, i),
    ensures
        a == b,
{
    assert(bit_of(a, 0) == bit_of(b, 0));
    assert(bit_of(a, 1) == bit_of(b, 1));
    assert(bit_of(a, 2) == bit_of(b, 2));
    assert(bit_of(a, 3) == bit_of(b, 3));
    assert(bit_of(a, 4) == bit_of(b, 4));
    assert(bit_of(a, 5) == bit_of(b, 5));
    assert(bit_of(a, 6) == bit_of(b, 6));
    assert(bit_of(a, 7) == bit_of(b, 7));
    assert(a == b) by (bit_vector)
        requires
            ((a >> 0u8) & 1u8 != 0) == ((b >> 0u8) & 1u8 != 0),
            ((a >> 1u8) & 1u8 != 0) == ((b >> 1u8) & 1u8 != 0),
            ((a >> 2u8) & 1u8 != 0) == ((b >> 2u8) & 1u8 != 0),
            ((a >> 3u8) & 1u8 != 0) == ((b >> 3u8) & 1u8 != 0),
            ((a >> 4u8) & 1u8 != 0) == ((b >> 4u8) & 1u8 != 0),
            ((a >> 5u8) & 1u8 != 0) == ((b >> 5u8) & 1u8 != 0),
            ((a >> 6u8) & 1u8 != 0) == ((b >> 6u8) & 1u8 != 0),
            ((a >> 7u8) & 1u8 != 0) == ((b >> 7u8) & 1u8 != 0),
    ;
}

/// The receiving side of the link, owner of its input pin.
///
/// Measuring pulses on the pin is left to the caller (see `PulseMeter`);
/// this type turns measured high times into bits, bytes and frames.
pub struct WirelessWireRx<T> {
    pub pin: T,
}

impl<T> WirelessWireRx<T> {
    pub fn new(pin: T) -> (r: Self)
        ensures
            r.pin == pin,
    {
        WirelessWireRx { pin }
    }

    /// The bit that one measurement stands for; a failed measurement
    /// (`None`) is read as an invalid pulse.
    pub fn read_bit(&self, pulse: Option<u16>) -> (r: Option<bool>)
        ensures
            r == match pulse {
                Some(d) => pulse_bit(d as int),
                None => None,
            },
    {
        let d = match pulse {
            Some(d) => d,
            None => 0,
        };
        classify_pulse(d)
    }

    /// The byte that eight measured high times carry, least significant
    /// bit first; `None` as soon as one of them is no valid bit.
    pub fn read_byte(&self, pulses: &[u16]) -> (r: Option<u8>)
        requires
            pulses@.len() == 8,
        ensures
            r is Some <==> forall|i: int| 0 <= i < 8 ==> pulse_bit(pulses@[i] as int) is Some,
            r matches Some(b) ==> forall|i: int|
                0 <= i < 8 ==> pulse_bit(pulses@[i] as int) == Some(bit_of(b, i)),
    {
        let mut byte: u8 = 0;
        let mut i: u8 = 0;
        assert forall|k: int| 0 <= k < 8 implies !bit_of(byte, k) by {
            let kk = k as u8;
            assert((0u8 >> kk) & 1u8 == 0u8) by (bit_vector);
        }
        while i < 8
            invariant
                0 <= i <= 8,
                pulses@.len() == 8,
                forall|k: int| 0 <= k < i ==> pulse_bit(pulses@[k] as int) == Some(bit_of(byte, k)),
                forall|k: int| i <= k < 8 ==> !bit_of(byte, k),
            decreases 8 - i,
        {
            let bit = match self.read_bit(Some(pulses[i as usize])) {
                Some(v) => v,
                None => {
                    assert(!(pulse_bit(pulses@[i as int] as int) is Some));
                    return None;
                },
            };
            if bit {
                let ghost old_byte = byte;
                byte = byte | (1u8 << i);
                assert forall|k: int| 0 <= k < 8 implies bit_of(byte, k) == (bit_of(old_byte, k)
                    || k == i) by {
                    lemma_set_bit(old_byte, i, k as u8);
                }
            }
            i = i + 1;
        }
        assert forall|k: int| 0 <= k < 8 implies pulse_bit(pulses@[k] as int) is Some by {
            assert(pulse_bit(pulses@[k] as int) == Some(bit_of(byte, k)));
        }
        Some(byte)
    }

    /// Decodes one frame from a finite sequence of measured high times, as
    /// a receiver with room for `buffer.len()` payload bytes would, and on
    /// success copies the payload to the front of `buffer`.
    ///
    /// `Incomplete` when the measurements run out first, above all when they
    /// never hold a whole header. On anything but a frame `buffer` is left as
    /// it was.
    pub fn receive(&self, pulses: &[u16], buffer: &mut [u8]) -> (r: Reception)
        ensures
            r == reception_of(rx_run(rx_init(old(buffer)@.len()), pulse_bits(pulses@))),
            r matches Reception::Frame(n) ==> final(buffer)@ == rx_run(
                rx_init(old(buffer)@.len()),
                pulse_bits(pulses@),
            ).payload + old(buffer)@.skip(n as int),
            !(r is Frame) ==> final(buffer)@ == old(buffer)@,
    {
        let ghost bits = pulse_bits(pulses@);
        let mut decoder = FrameDecoder::new(buffer.len());
        let mut i: usize = 0;
        while i < pulses.len()
            invariant
                0 <= i <= pulses@.len(),
                bits == pulse_bits(pulses@),
                decoder.wf(),
                decoder@.cap == old(buffer)@.len(),
                decoder@ == rx_run(rx_init(old(buffer)@.len()), bits.take(i as int)),
                buffer@ == old(buffer)@,
            decreases pulses.len() - i,
        {
            let bit = self.read_bit(Some(pulses[i]));
            decoder.push_bit(bit);
            assert(bits.take(i + 1).drop_last() =~= bits.take(i as int));
            i = i + 1;
        }
        assert(bits.take(pulses@.len() as int) =~= bits);
        let r = decoder.reception();
        decoder.write_payload(buffer);
        r
    }
}

} // verus!

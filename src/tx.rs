use vstd::prelude::*;

use crate::frame::{bits_of_bytes, byte_bits, frame_bytes, lemma_bits_of_bytes_push, bit_of, SYNC_BYTE};

verus! {

/// High time of a `1` bit, in microseconds.
pub const ONE_HIGH_US: u32 = 400;

/// High time of a `0` bit, in microseconds.
pub const ZERO_HIGH_US: u32 = 800;

/// Low time after every bit, in microseconds.
pub const GAP_US: u32 = 600;

/// One bit period on the wire: the line is held high for `high_us`, then low
/// for `low_us`.
#[derive(Clone, Copy, PartialEq, Eq, Structural, Debug)]
pub struct BitPulse {
    pub high_us: u32,
    pub low_us: u32,
}

/// The bit period that encodes `bit`.
pub open spec fn pulse_for(bit: bool) -> BitPulse {
    BitPulse { high_us: if bit { 400 } else { 800 }, low_us: 600 }
}

/// The bit periods that encode a sequence of bits, in order.
pub open spec fn pulses_for(bits: Seq<bool>) -> Seq<BitPulse> {
    bits.map_values(|b: bool| pulse_for(b))
}

/// The transmitting side of the link, owner of its output pin.
///
/// It decides the timing of every bit; driving the pin and waiting are left
/// to the caller, who holds the line high for `high_us` and then low for
/// `low_us` of each returned period, in order.
pub struct WirelessWireTx<T> {
    pub pin: T,
}

impl<T> WirelessWireTx<T> {
    pub fn new(pin: T) -> (r: Self)
        ensures
            r.pin == pin,
    {
        WirelessWireTx { pin }
    }

    /// The bit periods of one frame carrying `data`: the three zero header
    /// bytes, the sync byte, the length byte (the length modulo 256) and
    /// the payload, each byte least significant bit first.
    pub fn send(&self, data: &[u8]) -> (r: Vec<BitPulse>)
        ensures
            r@ == pulses_for(bits_of_bytes(frame_bytes(data@))),
    {
        let mut out: Vec<BitPulse> = Vec::new();
        let header: [u8; 5] = [0u8, 0u8, 0u8, SYNC_BYTE, (data.len() % 256) as u8];
        let ghost bytes: Seq<u8> = Seq::empty();
        let mut i: usize = 0;
        while i < 5
            invariant
                0 <= i <= 5,
                bytes == header@.take(i as int),
                out@ == pulses_for(bits_of_bytes(bytes)),
            decreases 5 - i,
        {
            let mut more = self.send_byte(header[i]);
            out.append(&mut more);
            proof {
                lemma_bits_of_bytes_push(bytes, header@[i as int]);
                bytes = bytes.push(header@[i as int]);
                assert(bytes =~= header@.take(i + 1));
            }
            i = i + 1;
        }
        assert(header@ =~= seq![0u8, 0u8, 0u8, 0x55u8, crate::frame::length_byte(data@.len())]);
        let mut j: usize = 0;
        while j < data.len()
            invariant
                0 <= j <= data@.len(),
                bytes == header@ + data@.take(j as int),
                out@ == pulses_for(bits_of_bytes(bytes)),
            decreases data.len() - j,
        {
            let mut more = self.send_byte(data[j]);
            out.append(&mut more);
            proof {
                lemma_bits_of_bytes_push(bytes, data@[j as int]);
                bytes = bytes.push(data@[j as int]);
                assert(bytes =~= header@ + data@.take(j + 1));
            }
            j = j + 1;
        }
        assert(data@.take(data@.len() as int) =~= data@);
        assert(bytes =~= frame_bytes(data@));
        out
    }

    /// The eight bit periods of `byte`, least significant bit first.
    pub fn send_byte(&self, byte: u8) -> (r: Vec<BitPulse>)
        ensures
            r@ == pulses_for(byte_bits(byte)),
    {
        let mut out: Vec<BitPulse> = Vec::new();
        let mut i: u8 = 0;
        while i < 8
            invariant
                0 <= i <= 8,
                out@ == pulses_for(byte_bits(byte).take(i as int)),
            decreases 8 - i,
        {
            let bit = (byte >> i) & 0x01 != 0;
            assert(bit == bit_of(byte, i as int));
            out.push(self.send_bit(bit));
            assert(byte_bits(byte).take(i + 1) =~= byte_bits(byte).take(i as int).push(bit));
            assert(out@ =~= pulses_for(byte_bits(byte).take(i + 1)));
            i = i + 1;
        }
        assert(byte_bits(byte).take(8) =~= byte_bits(byte));
        out
    }

    /// The bit period of `bit`: high for 400 µs for a `1`, 800 µs for a `0`,
    /// then low for 600 µs.
    pub fn send_bit(&self, bit: bool) -> (r: BitPulse)
        ensures
            r == pulse_for(bit),
    {
        let high_us = if bit {
            ONE_HIGH_US
        } else {
            ZERO_HIGH_US
        };
        BitPulse { high_us, low_us: GAP_US }
    }
}

} // verus!

use vstd::prelude::*;

use crate::frame::{
    bit_of, bits_of_bytes, byte_bits, frame_bytes, lemma_bits_of_bytes_append,
    lemma_bits_of_bytes_push,
};
use crate::rx::{
    accept_byte, add_bit, lemma_bits_determine_byte, lemma_set_bit, pulse_bits, reception_of,
    rx_init, rx_run, rx_step, Phase, Reception, RxModel,
};
use crate::tx::{pulses_for, BitPulse};

verus! {

/// Bit readings that are all valid and carry `bits`.
pub open spec fn lift(bits: Seq<bool>) -> Seq<Option<bool>> {
    bits.map_values(|b: bool| Some(b))
}

/// The high times, as a receiver measures them, of a train of bit periods.
pub open spec fn high_times(ps: Seq<BitPulse>) -> Seq<u16> {
    ps.map_values(|q: BitPulse| q.high_us as u16)
}

/// Whether the 24 readings of `bits` that end before index `e` are all
/// valid `0` bits.
pub open spec fn zero_run_ends_at(bits: Seq<Option<bool>>, e: int) -> bool {
    &&& 24 <= e <= bits.len()
    &&& forall|j: int| e - 24 <= j < e ==> #[trigger] bits[j] == Some(false)
}

/// Whether `bits` holds a run of 24 consecutive valid `0` readings.
pub open spec fn has_header(bits: Seq<Option<bool>>) -> bool {
    exists|e: int| #[trigger] zero_run_ends_at(bits, e)
}

/// Number of valid `0` readings at the end of `bits`.
pub open spec fn trailing_zeros(bits: Seq<Option<bool>>) -> nat
    decreases bits.len(),
{
    if bits.len() == 0 || bits.last() != Some(false) {
        0
    } else {
        trailing_zeros(bits.drop_last()) + 1
    }
}

/// The 24 valid `0` readings of a header.
pub open spec fn header_readings() -> Seq<Option<bool>> {
    Seq::new(24, |i: int| Some(false))
}

/// Feeding two sequences is feeding the first, then the second.
pub proof fn lemma_rx_run_append(s: RxModel, a: Seq<Option<bool>>, b: Seq<Option<bool>>)
    ensures
        rx_run(s, a + b) == rx_run(rx_run(s, a), b),
    decreases b.len(),
{
    if b.len() == 0 {
        assert(a + b =~= a);
    } else {
        lemma_rx_run_append(s, a, b.drop_last());
        assert((a + b).drop_last() =~= a + b.drop_last());
        assert((a + b).last() == b.last());
    }
}

/// A rejected frame stays rejected, whatever follows.
pub proof fn lemma_failed_stays(s: RxModel, bits: Seq<Option<bool>>)
    requires
        s.phase == Phase::Failed,
    ensures
        rx_run(s, bits) == s,
    decreases bits.len(),
{
    if bits.len() > 0 {
        lemma_failed_stays(s, bits.drop_last());
    }
}

proof fn lemma_trailing_zeros(bits: Seq<Option<bool>>, j: int)
    requires
        0 <= j < trailing_zeros(bits),
    ensures
        trailing_zeros(bits) <= bits.len(),
        bits[bits.len() - 1 - j] == Some(false),
    decreases bits.len(),
{
    assert(bits.len() > 0 && bits.last() == Some(false));
    if j > 0 {
        lemma_trailing_zeros(bits.drop_last(), j - 1);
        assert(bits.drop_last()[bits.len() - 1 - j] == bits[bits.len() - 1 - j]);
    } else if trailing_zeros(bits.drop_last()) > 0 {
        lemma_trailing_zeros(bits.drop_last(), 0);
    }
}

proof fn lemma_seeking(cap: nat, bits: Seq<Option<bool>>)
    requires
        !has_header(bits),
    ensures
        trailing_zeros(bits) < 24,
        rx_run(rx_init(cap), bits) == (RxModel { run: trailing_zeros(bits), ..rx_init(cap) }),
    decreases bits.len(),
{
    if bits.len() > 0 {
        let pre = bits.drop_last();
        if has_header(pre) {
            let e = choose|e: int| #[trigger] zero_run_ends_at(pre, e);
            assert forall|j: int| e - 24 <= j < e implies #[trigger] bits[j] == Some(false) by {
                assert(pre[j] == Some(false));
            }
            assert(zero_run_ends_at(bits, e));
        }
        lemma_seeking(cap, pre);
        if trailing_zeros(bits) >= 24 {
            lemma_trailing_zeros(bits, 0);
            assert forall|j: int| bits.len() - 24 <= j < bits.len() implies #[trigger] bits[j]
                == Some(false) by {
                lemma_trailing_zeros(bits, bits.len() - 1 - j);
            }
            assert(zero_run_ends_at(bits, bits.len() as int));
        }
    }
}

/// A receiver leaves the header search only once it has read 24
/// consecutive valid `0` bits: readings without such a run, whatever noise
/// or `1` bits they hold, leave it seeking.
pub proof fn lemma_no_header_keeps_seeking(cap: nat, bits: Seq<Option<bool>>)
    requires
        !has_header(bits),
    ensures
        rx_run(rx_init(cap), bits).phase == Phase::Seeking,
        reception_of(rx_run(rx_init(cap), bits)) == Reception::Incomplete,
{
    lemma_seeking(cap, bits);
}

/// The byte made of the `k` lowest bits of `b`, the others clear.
pub open spec fn low_part(b: u8, k: nat) -> u8
    decreases k,
{
    if k == 0 {
        0
    } else {
        add_bit(low_part(b, (k - 1) as nat), (k - 1) as nat, bit_of(b, k - 1))
    }
}

proof fn lemma_low_part_bits(b: u8, k: nat, i: int)
    requires
        k <= 8,
        0 <= i < 8,
    ensures
        bit_of(low_part(b, k), i) == (i < k && bit_of(b, i)),
    decreases k,
{
    if k == 0 {
        let ii = i as u8;
        assert((0u8 >> ii) & 1u8 == 0u8) by (bit_vector);
    } else {
        lemma_low_part_bits(b, (k - 1) as nat, i);
        if bit_of(b, k - 1) {
            lemma_set_bit(low_part(b, (k - 1) as nat), (k - 1) as u8, i as u8);
        }
    }
}

proof fn lemma_low_part_whole(b: u8)
    ensures
        low_part(b, 8) == b,
{
    assert forall|i: int| 0 <= i < 8 implies bit_of(low_part(b, 8), i) == bit_of(b, i) by {
        lemma_low_part_bits(b, 8, i);
    }
    lemma_bits_determine_byte(low_part(b, 8), b);
}

/// A state that is reading bytes and stands at a byte boundary.
pub open spec fn at_byte_boundary(s: RxModel) -> bool {
    &&& (s.phase == Phase::Sync || s.phase == Phase::Length || s.phase == Phase::Payload)
    &&& s.nbits == 0
    &&& s.acc == 0
}

proof fn lemma_byte_prefix(s: RxModel, b: u8, k: nat)
    requires
        at_byte_boundary(s),
        k < 8,
    ensures
        rx_run(s, lift(byte_bits(b)).take(k as int)) == (RxModel {
            nbits: k,
            acc: low_part(b, k),
            ..s
        }),
    decreases k,
{
    let bits = lift(byte_bits(b));
    if k == 0 {
        assert(bits.take(0) =~= Seq::<Option<bool>>::empty());
    } else {
        lemma_byte_prefix(s, b, (k - 1) as nat);
        assert(bits.take(k as int).drop_last() =~= bits.take(k - 1));
        assert(bits.take(k as int).last() == Some(bit_of(b, k - 1)));
    }
}

/// Eight valid readings that carry `b` make a receiver at a byte boundary
/// take the byte `b`.
pub proof fn lemma_read_byte(s: RxModel, b: u8)
    requires
        at_byte_boundary(s),
    ensures
        rx_run(s, lift(byte_bits(b))) == accept_byte(s, b),
{
    let bits = lift(byte_bits(b));
    lemma_byte_prefix(s, b, 7);
    assert(bits.drop_last() =~= bits.take(7));
    assert(bits.last() == Some(bit_of(b, 7)));
    lemma_low_part_whole(b);
    assert(RxModel { nbits: 0, acc: 0, ..RxModel { nbits: 7, acc: low_part(b, 7), ..s } } == s);
}

/// Valid readings are split where their bits are.
pub proof fn lemma_lift_append(a: Seq<bool>, b: Seq<bool>)
    ensures
        lift(a + b) == lift(a) + lift(b),
{
    assert(lift(a + b) =~= lift(a) + lift(b));
}

proof fn lemma_header_prefix(cap: nat, k: nat)
    requires
        k < 24,
    ensures
        rx_run(rx_init(cap), header_readings().take(k as int)) == (RxModel {
            run: k,
            ..rx_init(cap)
        }),
    decreases k,
{
    let h = header_readings();
    if k == 0 {
        assert(h.take(0) =~= Seq::<Option<bool>>::empty());
    } else {
        lemma_header_prefix(cap, (k - 1) as nat);
        assert(h.take(k as int).drop_last() =~= h.take(k - 1));
    }
}

/// A header takes a fresh receiver to the sync byte.
pub proof fn lemma_header(cap: nat)
    ensures
        rx_run(rx_init(cap), header_readings()) == (RxModel { phase: Phase::Sync, ..rx_init(cap) }),
{
    let h = header_readings();
    lemma_header_prefix(cap, 23);
    assert(h.drop_last() =~= h.take(23));
}

proof fn lemma_payload(s: RxModel, p: Seq<u8>)
    requires
        s.phase == Phase::Payload,
        at_byte_boundary(s),
        1 <= p.len(),
        s.payload.len() + p.len() <= s.len,
    ensures
        rx_run(s, lift(bits_of_bytes(p))) == (RxModel {
            phase: if s.payload.len() + p.len() == s.len {
                Phase::Done
            } else {
                Phase::Payload
            },
            payload: s.payload + p,
            ..s
        }),
    decreases p.len(),
{
    let q = p.drop_last();
    let x = p.last();
    lemma_lift_append(bits_of_bytes(q), byte_bits(x));
    if q.len() == 0 {
        assert(bits_of_bytes(q) =~= Seq::<bool>::empty());
        assert(lift(bits_of_bytes(p)) =~= lift(byte_bits(x)));
        lemma_read_byte(s, x);
        assert(s.payload.push(x) =~= s.payload + p);
    } else {
        lemma_payload(s, q);
        let mid = RxModel { payload: s.payload + q, ..s };
        lemma_rx_run_append(s, lift(bits_of_bytes(q)), lift(byte_bits(x)));
        lemma_read_byte(mid, x);
        assert(mid.payload.push(x) =~= s.payload + p);
    }
}

/// The readings of a whole frame: header, sync byte, length byte, payload.
proof fn lemma_frame_readings(p: Seq<u8>)
    ensures
        lift(bits_of_bytes(frame_bytes(p))) == header_readings() + lift(byte_bits(0x55))
            + lift(byte_bits(crate::frame::length_byte(p.len()))) + lift(bits_of_bytes(p)),
{
    let lb = crate::frame::length_byte(p.len());
    let head = seq![0u8, 0u8, 0u8, 0x55u8, lb];
    let e = Seq::<u8>::empty();
    let z = byte_bits(0u8);
    assert(head =~= e.push(0u8).push(0u8).push(0u8).push(0x55u8).push(lb));
    assert(bits_of_bytes(e) =~= Seq::<bool>::empty());
    lemma_bits_of_bytes_push(e, 0u8);
    lemma_bits_of_bytes_push(e.push(0u8), 0u8);
    lemma_bits_of_bytes_push(e.push(0u8).push(0u8), 0u8);
    lemma_bits_of_bytes_push(e.push(0u8).push(0u8).push(0u8), 0x55u8);
    lemma_bits_of_bytes_push(e.push(0u8).push(0u8).push(0u8).push(0x55u8), lb);
    lemma_bits_of_bytes_append(head, p);
    let zeros = Seq::<bool>::empty() + z + z + z;
    assert forall|i: int| 0 <= i < 8 implies !bit_of(0u8, i) by {
        let ii = i as u8;
        assert((0u8 >> ii) & 1u8 == 0u8) by (bit_vector);
    }
    assert(lift(zeros) =~= header_readings());
    let bl = byte_bits(0x55u8);
    let bn = byte_bits(lb);
    let bp = bits_of_bytes(p);
    assert(bits_of_bytes(frame_bytes(p)) == zeros + bl + bn + bp);
    lemma_lift_append(zeros + bl + bn, bp);
    lemma_lift_append(zeros + bl, bn);
    lemma_lift_append(zeros, bl);
}

/// Ideal high times of encoded bits read back as exactly those bits.
pub proof fn lemma_ideal_pulses(bits: Seq<bool>)
    ensures
        pulse_bits(high_times(pulses_for(bits))) == lift(bits),
{
    assert(pulse_bits(high_times(pulses_for(bits))) =~= lift(bits));
}

/// A payload of at most 255 bytes, sent as a frame and read back from the
/// ideal high times of its bit periods by a receiver with room for it, comes
/// back whole: the receiver reports a frame of the payload's length whose
/// bytes are the payload.
pub proof fn lemma_round_trip(p: Seq<u8>, cap: nat)
    requires
        p.len() <= 255,
        p.len() <= cap,
    ensures
        ({
            let s = rx_run(
                rx_init(cap),
                pulse_bits(high_times(pulses_for(bits_of_bytes(frame_bytes(p))))),
            );
            &&& reception_of(s) == Reception::Frame(p.len() as u8)
            &&& s.payload == p
        }),
{
    let lb = crate::frame::length_byte(p.len());
    assert(lb == p.len());
    let h = header_readings();
    let sb = lift(byte_bits(0x55));
    let lbb = lift(byte_bits(lb));
    let pb = lift(bits_of_bytes(p));
    lemma_ideal_pulses(bits_of_bytes(frame_bytes(p)));
    lemma_frame_readings(p);
    let init = rx_init(cap);
    lemma_rx_run_append(init, h + sb + lbb, pb);
    lemma_rx_run_append(init, h + sb, lbb);
    lemma_rx_run_append(init, h, sb);
    lemma_header(cap);
    let s1 = RxModel { phase: Phase::Sync, ..init };
    lemma_read_byte(s1, 0x55);
    let s2 = RxModel { phase: Phase::Length, ..init };
    lemma_read_byte(s2, lb);
    if p.len() == 0 {
        assert(bits_of_bytes(p) =~= Seq::<bool>::empty());
        assert(pb =~= Seq::<Option<bool>>::empty());
        assert(p =~= Seq::<u8>::empty());
    } else {
        let s3 = RxModel { phase: Phase::Payload, len: lb as nat, ..init };
        lemma_payload(s3, p);
        assert(Seq::<u8>::empty() + p =~= p);
    }
}

/// A frame whose length byte exceeds the receiver's capacity is rejected
/// right after that byte, before any payload byte is taken, and stays
/// rejected whatever follows.
pub proof fn lemma_oversize_rejected(cap: nat, n: u8, rest: Seq<Option<bool>>)
    requires
        n > cap,
    ensures
        ({
            let s = rx_run(
                rx_init(cap),
                header_readings() + lift(byte_bits(0x55)) + lift(byte_bits(n)) + rest,
            );
            &&& reception_of(s) == Reception::Rejected
            &&& s.payload.len() == 0
        }),
{
    let init = rx_init(cap);
    let h = header_readings();
    let sb = lift(byte_bits(0x55));
    let nb = lift(byte_bits(n));
    lemma_rx_run_append(init, h + sb + nb, rest);
    lemma_rx_run_append(init, h + sb, nb);
    lemma_rx_run_append(init, h, sb);
    lemma_header(cap);
    lemma_read_byte(RxModel { phase: Phase::Sync, ..init }, 0x55);
    lemma_read_byte(RxModel { phase: Phase::Length, ..init }, n);
    lemma_failed_stays(RxModel { phase: Phase::Failed, ..init }, rest);
}

/// A frame whose first byte after the header is not the sync byte is
/// rejected, whatever follows.
pub proof fn lemma_bad_sync_rejected(cap: nat, b: u8, rest: Seq<Option<bool>>)
    requires
        b != 0x55,
    ensures
        reception_of(rx_run(rx_init(cap), header_readings() + lift(byte_bits(b)) + rest))
            == Reception::Rejected,
{
    let init = rx_init(cap);
    let h = header_readings();
    let bb = lift(byte_bits(b));
    lemma_rx_run_append(init, h + bb, rest);
    lemma_rx_run_append(init, h, bb);
    lemma_header(cap);
    lemma_read_byte(RxModel { phase: Phase::Sync, ..init }, b);
    lemma_failed_stays(RxModel { phase: Phase::Failed, ..init }, rest);
}

} // verus!

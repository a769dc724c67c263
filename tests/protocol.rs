use wireless_wire::meter::{PulseMeter, PulseStep};
use wireless_wire::rx::{FrameDecoder, Reception, WirelessWireRx};
use wireless_wire::timing::classify_pulse;
use wireless_wire::tx::{BitPulse, WirelessWireTx};

fn high_times(data: &[u8]) -> Vec<u16> {
    let tx = WirelessWireTx::new(());
    tx.send(data).iter().map(|p| p.high_us as u16).collect()
}

fn byte_pulses(byte: u8) -> Vec<u16> {
    (0..8)
        .map(|i| if (byte >> i) & 1 != 0 { 400 } else { 800 })
        .collect()
}

fn header() -> Vec<u16> {
    vec![800; 24]
}

#[test]
fn thresholds_read_as_documented() {
    let rx = WirelessWireRx::new(());
    assert_eq!(rx.read_bit(Some(180)), Some(true));
    assert_eq!(rx.read_bit(Some(500)), Some(true));
    assert_eq!(rx.read_bit(Some(501)), Some(false));
    assert_eq!(rx.read_bit(Some(900)), Some(false));
    assert_eq!(rx.read_bit(Some(99)), None);
    assert_eq!(rx.read_bit(Some(179)), None);
    assert_eq!(rx.read_bit(Some(901)), None);
    assert_eq!(rx.read_bit(Some(2000)), None);
    assert_eq!(rx.read_bit(Some(0)), None);
    assert_eq!(rx.read_bit(Some(100)), None);
}

#[test]
fn failed_measurement_reads_as_invalid() {
    let rx = WirelessWireRx::new(());
    assert_eq!(rx.read_bit(None), None);
}

#[test]
fn classify_nominal_timings() {
    assert_eq!(classify_pulse(400), Some(true));
    assert_eq!(classify_pulse(800), Some(false));
    assert_eq!(classify_pulse(u16::MAX), None);
}

#[test]
fn bit_periods() {
    let tx = WirelessWireTx::new(());
    assert_eq!(tx.send_bit(true), BitPulse { high_us: 400, low_us: 600 });
    assert_eq!(tx.send_bit(false), BitPulse { high_us: 800, low_us: 600 });
}

#[test]
fn byte_goes_least_significant_bit_first() {
    let tx = WirelessWireTx::new(());
    let highs: Vec<u32> = tx.send_byte(0x55).iter().map(|p| p.high_us).collect();
    assert_eq!(highs, vec![400, 800, 400, 800, 400, 800, 400, 800]);
    let highs: Vec<u32> = tx.send_byte(0x01).iter().map(|p| p.high_us).collect();
    assert_eq!(highs, vec![400, 800, 800, 800, 800, 800, 800, 800]);
    assert!(tx.send_byte(0x2A).iter().all(|p| p.low_us == 600));
}

#[test]
fn frame_layout_of_single_byte() {
    let highs = high_times(&[0x2A]);
    let mut expected = header();
    expected.extend(byte_pulses(0x55));
    expected.extend(byte_pulses(0x01));
    expected.extend(byte_pulses(0x2A));
    assert_eq!(highs.len(), 48);
    assert_eq!(highs, expected);
}

#[test]
fn empty_frame_layout() {
    let highs = high_times(&[]);
    let mut expected = header();
    expected.extend(byte_pulses(0x55));
    expected.extend(byte_pulses(0x00));
    assert_eq!(highs, expected);
}

#[test]
fn length_byte_wraps_past_255() {
    let data = vec![0xFFu8; 256];
    let highs = high_times(&data);
    assert_eq!(highs.len(), 8 * (5 + 256));
    assert_eq!(&highs[32..40], &byte_pulses(0x00)[..]);
}

#[test]
fn single_byte_scenario() {
    let rx = WirelessWireRx::new(());
    let mut buffer = [0u8; 4];
    let r = rx.receive(&high_times(&[0x2A]), &mut buffer);
    assert_eq!(r, Reception::Frame(1));
    assert_eq!(buffer[0], 0x2A);
    assert_eq!(&buffer[1..], &[0, 0, 0]);
}

#[test]
fn round_trip_various_payloads() {
    let rx = WirelessWireRx::new(());
    let payloads: Vec<Vec<u8>> = vec![
        vec![],
        vec![0x00],
        vec![0xFF, 0x00, 0x55, 0xAA],
        (0..=254u8).collect(),
    ];
    for p in payloads {
        let mut buffer = vec![0xEEu8; 255];
        let r = rx.receive(&high_times(&p), &mut buffer);
        assert_eq!(r, Reception::Frame(p.len() as u8));
        assert_eq!(&buffer[..p.len()], &p[..]);
        assert!(buffer[p.len()..].iter().all(|&b| b == 0xEE));
    }
}

#[test]
fn round_trip_exact_capacity() {
    let rx = WirelessWireRx::new(());
    let p = vec![7u8, 8, 9];
    let mut buffer = [0u8; 3];
    assert_eq!(rx.receive(&high_times(&p), &mut buffer), Reception::Frame(3));
    assert_eq!(buffer, [7, 8, 9]);
}

#[test]
fn round_trip_with_jitter() {
    let rx = WirelessWireRx::new(());
    let jittered: Vec<u16> = high_times(&[0x2A, 0x17])
        .iter()
        .map(|&d| if d == 400 { 430 } else { 760 })
        .collect();
    let mut buffer = [0u8; 2];
    assert_eq!(rx.receive(&jittered, &mut buffer), Reception::Frame(2));
    assert_eq!(buffer, [0x2A, 0x17]);
}

#[test]
fn alternating_bits_never_leave_header_search() {
    let rx = WirelessWireRx::new(());
    let pulses: Vec<u16> = (0..1000).map(|i| if i % 2 == 0 { 400 } else { 800 }).collect();
    let mut buffer = [9u8; 4];
    assert_eq!(rx.receive(&pulses, &mut buffer), Reception::Incomplete);
    assert_eq!(buffer, [9; 4]);
}

#[test]
fn interrupted_header_restarts_count() {
    let rx = WirelessWireRx::new(());
    let mut pulses = vec![800u16; 23];
    pulses.push(50);
    pulses.extend(vec![800u16; 23]);
    pulses.push(400);
    pulses.extend(vec![800u16; 23]);
    let mut buffer = [0u8; 1];
    assert_eq!(rx.receive(&pulses, &mut buffer), Reception::Incomplete);
}

#[test]
fn noise_before_header_is_skipped() {
    let rx = WirelessWireRx::new(());
    let mut pulses = vec![50u16, 400, 2000, 800, 800, 150, 400];
    pulses.extend(high_times(&[0x99]));
    let mut buffer = [0u8; 1];
    assert_eq!(rx.receive(&pulses, &mut buffer), Reception::Frame(1));
    assert_eq!(buffer, [0x99]);
}

#[test]
fn oversize_length_is_rejected_without_writing() {
    let rx = WirelessWireRx::new(());
    let pulses = high_times(&[1, 2, 3, 4, 5]);
    let mut buffer = [0xABu8; 2];
    assert_eq!(rx.receive(&pulses, &mut buffer), Reception::Rejected);
    assert_eq!(buffer, [0xAB, 0xAB]);
}

#[test]
fn bad_sync_is_rejected() {
    let rx = WirelessWireRx::new(());
    let mut pulses = header();
    pulses.extend(byte_pulses(0x54));
    pulses.extend(byte_pulses(0x01));
    pulses.extend(byte_pulses(0x2A));
    let mut buffer = [0u8; 4];
    assert_eq!(rx.receive(&pulses, &mut buffer), Reception::Rejected);
    assert_eq!(buffer, [0; 4]);
}

#[test]
fn corrupted_payload_bit_is_rejected() {
    let rx = WirelessWireRx::new(());
    let mut pulses = high_times(&[0x10, 0x20]);
    let n = pulses.len();
    pulses[n - 3] = 950;
    let mut buffer = [0u8; 2];
    assert_eq!(rx.receive(&pulses, &mut buffer), Reception::Rejected);
    assert_eq!(buffer, [0, 0]);
}

#[test]
fn truncated_frame_is_incomplete() {
    let rx = WirelessWireRx::new(());
    let pulses = high_times(&[0x10, 0x20]);
    let mut buffer = [0u8; 2];
    assert_eq!(rx.receive(&pulses[..pulses.len() - 1], &mut buffer), Reception::Incomplete);
    assert_eq!(buffer, [0, 0]);
}

#[test]
fn read_byte_from_pulses() {
    let rx = WirelessWireRx::new(());
    assert_eq!(rx.read_byte(&byte_pulses(0xA5)), Some(0xA5));
    assert_eq!(rx.read_byte(&byte_pulses(0x00)), Some(0x00));
    assert_eq!(rx.read_byte(&byte_pulses(0xFF)), Some(0xFF));
    let mut bad = byte_pulses(0xA5);
    bad[7] = 950;
    assert_eq!(rx.read_byte(&bad), None);
}

#[test]
fn decoder_reports_each_stage() {
    let mut d = FrameDecoder::new(1);
    for _ in 0..24 {
        assert_eq!(d.push_bit(Some(false)), Reception::Incomplete);
    }
    for i in 0..8 {
        assert_eq!(d.push_bit(Some((0x55u8 >> i) & 1 != 0)), Reception::Incomplete);
    }
    for i in 0..8 {
        assert_eq!(d.push_bit(Some((0x01u8 >> i) & 1 != 0)), Reception::Incomplete);
    }
    for i in 0..7 {
        assert_eq!(d.push_bit(Some((0xC3u8 >> i) & 1 != 0)), Reception::Incomplete);
    }
    assert_eq!(d.push_bit(Some(true)), Reception::Frame(1));
    assert_eq!(d.push_bit(None), Reception::Frame(1));
    let mut small: [u8; 0] = [];
    assert_eq!(d.write_payload(&mut small), None);
    let mut buffer = [0u8; 3];
    assert_eq!(d.write_payload(&mut buffer), Some(1));
    assert_eq!(buffer, [0xC3, 0, 0]);
}

#[test]
fn decoder_without_frame_writes_nothing() {
    let d = FrameDecoder::new(4);
    assert_eq!(d.reception(), Reception::Incomplete);
    let mut buffer = [5u8; 4];
    assert_eq!(d.write_payload(&mut buffer), None);
    assert_eq!(buffer, [5; 4]);
}

#[test]
fn invalid_bit_after_header_rejects() {
    let mut d = FrameDecoder::new(4);
    for _ in 0..24 {
        d.push_bit(Some(false));
    }
    assert_eq!(d.push_bit(None), Reception::Rejected);
    assert_eq!(d.push_bit(Some(false)), Reception::Rejected);
}

#[test]
fn zero_length_frame() {
    let mut d = FrameDecoder::new(0);
    for _ in 0..24 {
        d.push_bit(Some(false));
    }
    for i in 0..8 {
        d.push_bit(Some((0x55u8 >> i) & 1 != 0));
    }
    for _ in 0..7 {
        assert_eq!(d.push_bit(Some(false)), Reception::Incomplete);
    }
    assert_eq!(d.push_bit(Some(false)), Reception::Frame(0));
}

#[test]
fn meter_measures_high_time() {
    let mut m = PulseMeter::new();
    assert_eq!(m.sample(false), PulseStep::Continue { delay_us: 0 });
    assert_eq!(m.sample(false), PulseStep::Continue { delay_us: 0 });
    for _ in 0..40 {
        assert_eq!(m.sample(true), PulseStep::Continue { delay_us: 10 });
    }
    assert_eq!(m.sample(false), PulseStep::Measured(400));
    assert_eq!(m.sample(false), PulseStep::Continue { delay_us: 0 });
    assert_eq!(m.sample(true), PulseStep::Continue { delay_us: 10 });
    assert_eq!(m.sample(false), PulseStep::Measured(10));
}

#[test]
fn meter_caps_stuck_line() {
    let mut m = PulseMeter::new();
    for _ in 0..200 {
        assert_eq!(m.sample(true), PulseStep::Continue { delay_us: 10 });
    }
    assert_eq!(m.sample(true), PulseStep::Measured(2000));
    assert_eq!(m.sample(true), PulseStep::Continue { delay_us: 10 });
}

use vstd::prelude::*;

verus! {

/// Polling step of a pulse measurement, in microseconds.
pub const POLL_US: u16 = 10;

/// Longest high time that a measurement reports, in microseconds.
pub const MAX_PULSE_US: u16 = 2000;

/// What the caller does after handing a pin level to a `PulseMeter`.
#[derive(Clone, Copy, PartialEq, Eq, Structural, Debug)]
pub enum PulseStep {
    /// Wait this many microseconds (none at all for 0), then sample the pin
    /// again.
    Continue { delay_us: u32 },
    /// The pulse is over: its high time, in microseconds.
    Measured(u16),
}

/// Mathematical state of a pulse measurement.
pub struct MeterModel {
    /// Whether the line has been seen high.
    pub started: bool,
    /// High time accumulated so far, in microseconds.
    pub duration: nat,
}

/// A measurement that has not seen the line high yet.
pub open spec fn meter_init() -> MeterModel {
    MeterModel { started: false, duration: 0 }
}

/// Next state of a measurement in state `m` that samples the line at level
/// `high`.
pub open spec fn meter_next(m: MeterModel, high: bool) -> MeterModel {
    if high && m.duration < 2000 {
        MeterModel { started: true, duration: m.duration + 10 }
    } else if high || m.started {
        meter_init()
    } else {
        m
    }
}

/// What a measurement in state `m` tells its caller after sampling the line
/// at level `high`: while low before the pulse, sample again at once; while
/// high, wait one polling step, until 2000 µs have gathered; once the line is
/// low again, or at 2000 µs, the high time.
pub open spec fn meter_action(m: MeterModel, high: bool) -> PulseStep {
    if high && m.duration < 2000 {
        PulseStep::Continue { delay_us: 10 }
    } else if high {
        PulseStep::Measured(2000)
    } else if m.started {
        PulseStep::Measured(m.duration as u16)
    } else {
        PulseStep::Continue { delay_us: 0 }
    }
}

/// Measures the high time of the next pulse on a line, one sample of the
/// pin level at a time.
pub struct PulseMeter {
    started: bool,
    duration: u16,
}

impl View for PulseMeter {
    type V = MeterModel;

    closed spec fn view(&self) -> MeterModel {
        MeterModel { started: self.started, duration: self.duration as nat }
    }
}

impl PulseMeter {
    /// Bounds that every measurement keeps.
    pub open spec fn wf(&self) -> bool {
        &&& self@.duration <= 2000
        &&& self@.duration % 10 == 0
        &&& (!self@.started ==> self@.duration == 0)
    }

    pub fn new() -> (r: PulseMeter)
        ensures
            r@ == meter_init(),
            r.wf(),
    {
        PulseMeter { started: false, duration: 0 }
    }

    /// Takes one sample of the line (`true` for high) and says what to do
    /// next. After `Measured` the meter is ready for the next pulse.
    pub fn sample(&mut self, high: bool) -> (r: PulseStep)
        requires
            old(self).wf(),
        ensures
            final(self)@ == meter_next(old(self)@, high),
            r == meter_action(old(self)@, high),
            final(self).wf(),
    {
        if high && self.duration < MAX_PULSE_US {
            self.started = true;
            self.duration = self.duration + POLL_US;
            PulseStep::Continue { delay_us: POLL_US as u32 }
        } else if high || self.started {
            let d = if high {
                MAX_PULSE_US
            } else {
                self.duration
            };
            self.started = false;
            self.duration = 0;
            PulseStep::Measured(d)
        } else {
            PulseStep::Continue { delay_us: 0 }
        }
    }
}

/// State of a measurement after sampling the levels `levels`, in order.
pub open spec fn meter_after(m: MeterModel, levels: Seq<bool>) -> MeterModel
    decreases levels.len(),
{
    if levels.len() == 0 {
        m
    } else {
        meter_next(meter_after(m, levels.drop_last()), levels.last())
    }
}

/// `n` samples of the same level.
pub open spec fn levels(n: nat, high: bool) -> Seq<bool> {
    Seq::new(n, |i: int| high)
}

proof fn lemma_waiting(l: nat)
    ensures
        meter_after(meter_init(), levels(l, false)) == meter_init(),
    decreases l,
{
    if l > 0 {
        lemma_waiting((l - 1) as nat);
        assert(levels(l, false).drop_last() =~= levels((l - 1) as nat, false));
    }
}

proof fn lemma_timing(l: nat, h: nat)
    requires
        h <= 200,
    ensures
        meter_after(meter_init(), levels(l, false) + levels(h, true)) == (MeterModel {
            started: h > 0,
            duration: 10 * h,
        }),
    decreases h,
{
    if h == 0 {
        lemma_waiting(l);
        assert(levels(l, false) + levels(0, true) =~= levels(l, false));
    } else {
        lemma_timing(l, (h - 1) as nat);
        assert((levels(l, false) + levels(h, true)).drop_last() =~= levels(l, false) + levels(
            (h - 1) as nat,
            true,
        ));
    }
}

/// A measurement reports the high time of the pulse it has seen, in steps
/// of 10 µs: however long the line was low before, a line sampled high `h`
/// times (the caller waiting 10 µs after each) and then low reads as
/// `10 * h` µs, up to 2000 µs.
pub proof fn lemma_meter_reports_high_time(l: nat, h: nat)
    requires
        1 <= h <= 200,
    ensures
        meter_action(meter_after(meter_init(), levels(l, false) + levels(h, true)), false)
            == PulseStep::Measured((10 * h) as u16),
        meter_next(meter_after(meter_init(), levels(l, false) + levels(h, true)), false)
            == meter_init(),
{
    lemma_timing(l, h);
}

/// A line that stays high is reported at the sample after 2000 µs of high
/// time, as a pulse of 2000 µs.
pub proof fn lemma_meter_caps_stuck_line(l: nat)
    ensures
        meter_action(meter_after(meter_init(), levels(l, false) + levels(200, true)), true)
            == PulseStep::Measured(2000),
{
    lemma_timing(l, 200);
}

} // verus!

//! One polling cycle, and the two-state machine that orders cycles and
//! pauses.
//!
//! The machine never reads, sleeps or draws. It says what is to be done
//! next; the caller does it and reports back.

use crate::delta::LoadDeltaState;
use crate::error::SampleError;
use crate::metrics::{
    parse_cpu_load, parse_cpu_temp, parse_gpu_temp, parse_ram, spec_cpu_load, spec_cpu_temp,
    spec_gpu_temp, spec_ram, CpuLoadSnapshot, LoadView, MemoryUsage, StatLayout, Temperature,
};
use crate::number::{parse_u64, spec_parse_u64};
use crate::source::{capture_view, decode, spec_decode};
use crate::trim::{spec_trim, trim};
use vstd::prelude::*;

verus! {

/// The pause between two cycles where none was asked for, in seconds.
pub const DEFAULT_INTERVAL: u64 = 2;

/// What the four sources delivered in one cycle. A source that could not be
/// read has no capture.
#[derive(Clone, Debug, PartialEq, Eq)]
pub struct Readings {
    /// The answer of the GPU temperature probe.
    pub gpu_probe: Option<Vec<u8>>,
    /// The content of the CPU thermal file.
    pub cpu_thermal: Option<Vec<u8>>,
    /// The content of the memory table.
    pub meminfo: Option<Vec<u8>>,
    /// The content of the CPU statistics table.
    pub stat: Option<Vec<u8>>,
}

/// The readings of a cycle as plain values.
pub ghost struct ReadingsView {
    pub gpu_probe: Option<Seq<u8>>,
    pub cpu_thermal: Option<Seq<u8>>,
    pub meminfo: Option<Seq<u8>>,
    pub stat: Option<Seq<u8>>,
}

impl View for Readings {
    type V = ReadingsView;

    open spec fn view(&self) -> ReadingsView {
        ReadingsView {
            gpu_probe: capture_view(self.gpu_probe),
            cpu_thermal: capture_view(self.cpu_thermal),
            meminfo: capture_view(self.meminfo),
            stat: capture_view(self.stat),
        }
    }
}

/// What one cycle hands to the display. A metric that could not be sampled
/// carries its failure, and the others stand beside it.
#[derive(Debug, PartialEq, Eq)]
pub struct CycleReport {
    pub gpu_temp: Result<Temperature, SampleError>,
    pub cpu_temp: Result<Temperature, SampleError>,
    pub ram: Result<MemoryUsage, SampleError>,
    pub load: Result<CpuLoadSnapshot, SampleError>,
    /// Ticks of the aggregate counter since the last cycle that had one; 0
    /// where this cycle or none before it had one.
    pub total_delta: u64,
}

/// A report as plain values.
pub ghost struct ReportView {
    pub gpu_temp: Result<Temperature, SampleError>,
    pub cpu_temp: Result<Temperature, SampleError>,
    pub ram: Result<MemoryUsage, SampleError>,
    pub load: Result<LoadView, SampleError>,
    pub total_delta: u64,
}

/// A load result as plain values.
pub open spec fn load_view(load: Result<CpuLoadSnapshot, SampleError>) -> Result<
    LoadView,
    SampleError,
> {
    match load {
        Ok(snapshot) => Ok(snapshot@),
        Err(e) => Err(e),
    }
}

impl View for CycleReport {
    type V = ReportView;

    open spec fn view(&self) -> ReportView {
        ReportView {
            gpu_temp: self.gpu_temp,
            cpu_temp: self.cpu_temp,
            ram: self.ram,
            load: load_view(self.load),
            total_delta: self.total_delta,
        }
    }
}

/// The pause that a line of input asks for: the positive integer that the
/// line holds between the white space at its ends, and the default where it
/// holds none.
pub open spec fn spec_interval(line: Seq<u8>) -> u64 {
    match spec_parse_u64(spec_trim(line)) {
        Ok(secs) => if secs > 0 {
            secs
        } else {
            DEFAULT_INTERVAL
        },
        Err(_) => DEFAULT_INTERVAL,
    }
}

/// The GPU temperature of a capture.
pub open spec fn spec_sample_gpu_temp(capture: Option<Seq<u8>>) -> Result<
    Temperature,
    SampleError,
> {
    match spec_decode(capture) {
        Ok(text) => spec_gpu_temp(text),
        Err(e) => Err(e),
    }
}

/// The CPU temperature of a capture.
pub open spec fn spec_sample_cpu_temp(capture: Option<Seq<u8>>) -> Result<
    Temperature,
    SampleError,
> {
    match spec_decode(capture) {
        Ok(text) => spec_cpu_temp(text),
        Err(e) => Err(e),
    }
}

/// The RAM usage of a capture.
pub open spec fn spec_sample_ram(capture: Option<Seq<u8>>) -> Result<MemoryUsage, SampleError> {
    match spec_decode(capture) {
        Ok(text) => spec_ram(text),
        Err(e) => Err(e),
    }
}

/// The load counters of a capture.
pub open spec fn spec_sample_load(capture: Option<Seq<u8>>, layout: StatLayout) -> Result<
    LoadView,
    SampleError,
> {
    match spec_decode(capture) {
        Ok(text) => spec_cpu_load(text, layout),
        Err(e) => Err(e),
    }
}

/// The delta that a cycle reports: that of its aggregate counter against
/// the baseline, and 0 where the load could not be sampled.
pub open spec fn spec_cycle_delta(load: Result<LoadView, SampleError>, state: LoadDeltaState) -> u64 {
    match load {
        Ok(snapshot) => state.spec_delta_for(snapshot.total),
        Err(_) => 0,
    }
}

/// The baseline that a cycle leaves: its aggregate counter, and the old
/// baseline where the load could not be sampled.
pub open spec fn spec_cycle_baseline(
    load: Result<LoadView, SampleError>,
    state: LoadDeltaState,
) -> Option<u64> {
    match load {
        Ok(snapshot) => Some(snapshot.total),
        Err(_) => state.baseline(),
    }
}

/// The report of a cycle with the given readings, held against `state`.
pub open spec fn spec_cycle(
    readings: ReadingsView,
    layout: StatLayout,
    state: LoadDeltaState,
) -> ReportView {
    ReportView {
        gpu_temp: spec_sample_gpu_temp(readings.gpu_probe),
        cpu_temp: spec_sample_cpu_temp(readings.cpu_thermal),
        ram: spec_sample_ram(readings.meminfo),
        load: spec_sample_load(readings.stat, layout),
        total_delta: spec_cycle_delta(spec_sample_load(readings.stat, layout), state),
    }
}

/// The pause in seconds that a line typed by the user asks for.
pub fn interval_from_input(line: &[u8]) -> (secs: u64)
    ensures
        secs == spec_interval(line@),
        secs > 0,
{
    match parse_u64(trim(line)) {
        Ok(secs) => if secs > 0 {
            secs
        } else {
            DEFAULT_INTERVAL
        },
        Err(_) => DEFAULT_INTERVAL,
    }
}

/// Samples the GPU temperature from what the probe delivered.
pub fn sample_gpu_temp(capture: &Option<Vec<u8>>) -> (temp: Result<Temperature, SampleError>)
    ensures
        temp == spec_sample_gpu_temp(capture_view(*capture)),
{
    match decode(capture) {
        Ok(text) => parse_gpu_temp(text),
        Err(e) => Err(e),
    }
}

/// Samples the CPU temperature from what the thermal file delivered.
pub fn sample_cpu_temp(capture: &Option<Vec<u8>>) -> (temp: Result<Temperature, SampleError>)
    ensures
        temp == spec_sample_cpu_temp(capture_view(*capture)),
{
    match decode(capture) {
        Ok(text) => parse_cpu_temp(text),
        Err(e) => Err(e),
    }
}

/// Samples the RAM usage from what the memory table delivered.
pub fn sample_ram(capture: &Option<Vec<u8>>) -> (usage: Result<MemoryUsage, SampleError>)
    ensures
        usage == spec_sample_ram(capture_view(*capture)),
{
    match decode(capture) {
        Ok(text) => parse_ram(text),
        Err(e) => Err(e),
    }
}

/// Samples the load counters from what the statistics table delivered.
pub fn sample_load(capture: &Option<Vec<u8>>, layout: StatLayout) -> (load: Result<
    CpuLoadSnapshot,
    SampleError,
>)
    ensures
        load_view(load) == spec_sample_load(capture_view(*capture), layout),
{
    match decode(capture) {
        Ok(text) => parse_cpu_load(text, layout),
        Err(e) => Err(e),
    }
}

/// Works one cycle: samples each metric by itself, so that one failure
/// leaves the others standing, derives the load delta and moves the
/// baseline on.
pub fn run_cycle(readings: &Readings, layout: StatLayout, state: &mut LoadDeltaState) -> (report:
    CycleReport)
    ensures
        report@ == spec_cycle(readings@, layout, *old(state)),
        final(state).baseline() == spec_cycle_baseline(report@.load, *old(state)),
{
    let gpu_temp = sample_gpu_temp(&readings.gpu_probe);
    let cpu_temp = sample_cpu_temp(&readings.cpu_thermal);
    let ram = sample_ram(&readings.meminfo);
    let load = sample_load(&readings.stat, layout);
    let total_delta: u64 = match &load {
        Ok(snapshot) => state.observe(snapshot.total),
        Err(_) => 0,
    };
    CycleReport { gpu_temp, cpu_temp, ram, load, total_delta }
}

/// Where the polling loop stands.
#[derive(Clone, Copy, Debug, PartialEq, Eq, Structural)]
pub enum Phase {
    /// The sources are being read and the metrics derived.
    Sampling,
    /// The loop rests until the next cycle.
    Idle,
}

/// What the caller reports to the machine.
#[derive(Clone, Debug, PartialEq, Eq)]
pub enum Event {
    /// The sources were read, with these captures.
    Sampled(Readings),
    /// The pause is over.
    Elapsed,
}

/// What the machine asks the caller to do next.
#[derive(Debug, PartialEq, Eq)]
pub enum Action {
    /// Read the four sources and report `Event::Sampled`.
    Sample,
    /// Show the report, rest for so many seconds and report
    /// `Event::Elapsed`.
    Render { report: CycleReport, sleep_secs: u64 },
    /// Rest for so many seconds and report `Event::Elapsed`.
    Wait { sleep_secs: u64 },
}

/// The polling loop as a machine of two states. It starts out sampling and
/// has no last state.
#[derive(Clone, Copy, Debug, PartialEq, Eq)]
pub struct Poller {
    phase: Phase,
    interval_secs: u64,
    layout: StatLayout,
    load: LoadDeltaState,
}

impl Poller {
    /// The state the loop is in.
    pub closed spec fn spec_phase(&self) -> Phase {
        self.phase
    }

    /// The pause between two cycles, in seconds.
    pub closed spec fn spec_interval_secs(&self) -> u64 {
        self.interval_secs
    }

    /// The layout that the statistics table is read by.
    pub closed spec fn spec_layout(&self) -> StatLayout {
        self.layout
    }

    /// The state that the load delta is derived from.
    pub closed spec fn spec_load(&self) -> LoadDeltaState {
        self.load
    }

    /// A loop about to take its first sample. A pause of 0 seconds is
    /// replaced by the default.
    pub fn new(interval_secs: u64, layout: StatLayout) -> (poller: Poller)
        ensures
            poller.spec_phase() == Phase::Sampling,
            poller.spec_interval_secs() == (if interval_secs > 0 {
                interval_secs
            } else {
                DEFAULT_INTERVAL
            }),
            poller.spec_layout() == layout,
            poller.spec_load().baseline() == None::<u64>,
    {
        let interval_secs: u64 = if interval_secs > 0 {
            interval_secs
        } else {
            DEFAULT_INTERVAL
        };
        Poller { phase: Phase::Sampling, interval_secs, layout, load: LoadDeltaState::new() }
    }

    /// The state the loop is in.
    pub fn phase(&self) -> (phase: Phase)
        ensures
            phase == self.spec_phase(),
    {
        self.phase
    }

    /// The pause between two cycles, in seconds.
    pub fn interval_secs(&self) -> (secs: u64)
        ensures
            secs == self.spec_interval_secs(),
    {
        self.interval_secs
    }

    /// The aggregate counter that the next sample is held against.
    pub fn previous_total(&self) -> (previous: Option<u64>)
        ensures
            previous == self.spec_load().baseline(),
    {
        self.load.previous_total()
    }

    /// Takes one event and says what to do next.
    ///
    /// While sampling, the captures make a report, and the loop goes to
    /// rest whatever failed in them. While idle, the end of the pause
    /// starts the next cycle. An event that does not belong to the state
    /// changes nothing, and the action owed is asked for again.
    pub fn step(&mut self, event: Event) -> (action: Action)
        ensures
            final(self).spec_interval_secs() == old(self).spec_interval_secs(),
            final(self).spec_layout() == old(self).spec_layout(),
            match (old(self).spec_phase(), event) {
                (Phase::Sampling, Event::Sampled(readings)) => {
                    &&& final(self).spec_phase() == Phase::Idle
                    &&& action matches Action::Render { report, sleep_secs }
                    &&& report@ == spec_cycle(
                        readings@,
                        old(self).spec_layout(),
                        old(self).spec_load(),
                    )
                    &&& sleep_secs == old(self).spec_interval_secs()
                    &&& final(self).spec_load().baseline() == spec_cycle_baseline(
                        report@.load,
                        old(self).spec_load(),
                    )
                },
                (Phase::Idle, Event::Elapsed) => {
                    &&& final(self).spec_phase() == Phase::Sampling
                    &&& action == Action::Sample
                    &&& final(self).spec_load() == old(self).spec_load()
                },
                (Phase::Sampling, Event::Elapsed) => {
                    &&& *final(self) == *old(self)
                    &&& action == Action::Sample
                },
                (Phase::Idle, Event::Sampled(_)) => {
                    &&& *final(self) == *old(self)
                    &&& action == (Action::Wait { sleep_secs: old(self).spec_interval_secs() })
                },
            },
    {
        match self.phase {
            Phase::Sampling => match event {
                Event::Sampled(readings) => {
                    let report: CycleReport = run_cycle(&readings, self.layout, &mut self.load);
                    self.phase = Phase::Idle;
                    Action::Render { report, sleep_secs: self.interval_secs }
                },
                Event::Elapsed => Action::Sample,
            },
            Phase::Idle => match event {
                Event::Elapsed => {
                    self.phase = Phase::Sampling;
                    Action::Sample
                },
                Event::Sampled(_) => Action::Wait { sleep_secs: self.interval_secs },
            },
        }
    }
}

} // verus!

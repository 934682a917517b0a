//! One reading routine per metric: GPU temperature, CPU temperature, RAM
//! usage and the CPU load counters.

use crate::error::SampleError;
use crate::fields::{
    field_after, field_at, spec_field_after, spec_field_at, spec_split, spec_tokens, split,
    token_views,
};
use crate::number::{
    parse_thousandths, parse_u64, parse_whole, push_decimal, spec_decimal,
    spec_parse_thousandths, spec_parse_u64, spec_parse_whole,
};
use crate::trim::{spec_trim_end, trim_end};
use vstd::prelude::*;

verus! {

/// A temperature in thousandths of a degree Celsius.
#[derive(Clone, Copy, Debug, PartialEq, Eq, Structural)]
pub struct Temperature {
    pub millidegrees: i64,
}

/// Memory in use and memory installed, in megabytes of 1000 kilobytes.
#[derive(Clone, Copy, Debug, PartialEq, Eq, Structural)]
pub struct MemoryUsage {
    pub used_mb: u64,
    pub total_mb: u64,
}

/// Where the counters stand in the statistics table.
#[derive(Clone, Copy, Debug, PartialEq, Eq, Structural)]
pub struct StatLayout {
    /// How many tokens behind the label `cpu` the aggregate counter stands.
    pub total_offset: usize,
    /// How many cores are read, from `cpu0` on.
    pub cores: usize,
}

/// The cumulative counters of one sample: the aggregate one, and one per
/// core, at the core's number.
#[derive(Clone, Debug, PartialEq, Eq)]
pub struct CpuLoadSnapshot {
    pub total: u64,
    pub cores: Vec<u64>,
}

/// A snapshot as plain values.
pub ghost struct LoadView {
    pub total: u64,
    pub cores: Seq<u64>,
}

impl View for CpuLoadSnapshot {
    type V = LoadView;

    open spec fn view(&self) -> LoadView {
        LoadView { total: self.total, cores: self.cores@ }
    }
}

/// The byte `=`.
pub const EQUALS: u8 = 61;

/// The byte `'`.
pub const APOSTROPHE: u8 = 39;

/// The space.
pub const SPACE: u8 = 32;

/// The line feed.
pub const NEWLINE: u8 = 10;

/// The delimiters of the GPU probe's answer: `=` and `'`.
pub open spec fn spec_probe_delims() -> Seq<u8> {
    seq![EQUALS, APOSTROPHE]
}

/// The delimiters of the tabular sources: space and newline.
pub open spec fn spec_table_delims() -> Seq<u8> {
    seq![SPACE, NEWLINE]
}

/// The label `MemTotal:`.
pub open spec fn spec_mem_total_label() -> Seq<u8> {
    seq![77u8, 101u8, 109u8, 84u8, 111u8, 116u8, 97u8, 108u8, 58u8]
}

/// The label `MemAvailable:`.
pub open spec fn spec_mem_available_label() -> Seq<u8> {
    seq![77u8, 101u8, 109u8, 65u8, 118u8, 97u8, 105u8, 108u8, 97u8, 98u8, 108u8, 101u8, 58u8]
}

/// The label `cpu` of the aggregate line.
pub open spec fn spec_cpu_label() -> Seq<u8> {
    seq![99u8, 112u8, 117u8]
}

/// The label of a core's line: `cpu` and the core's number.
pub open spec fn spec_core_label(core: nat) -> Seq<u8> {
    spec_cpu_label() + spec_decimal(core)
}

/// The GPU temperature that the probe's answer gives: the second token of
/// the answer split at `=` and `'`, read as a decimal of degrees.
pub open spec fn spec_gpu_temp(text: Seq<u8>) -> Result<Temperature, SampleError> {
    match spec_field_at(spec_split(text, spec_probe_delims()), 1) {
        Ok(token) => match spec_parse_thousandths(token) {
            Ok(millidegrees) => Ok(Temperature { millidegrees }),
            Err(e) => Err(e),
        },
        Err(e) => Err(e),
    }
}

/// The CPU temperature that the thermal file gives: its whole content up
/// to the white space at its end, read as a decimal of millidegrees. What
/// the decimal holds of a fraction of a millidegree is cut off.
pub open spec fn spec_cpu_temp(text: Seq<u8>) -> Result<Temperature, SampleError> {
    match spec_parse_whole(spec_trim_end(text)) {
        Ok(millidegrees) => Ok(Temperature { millidegrees }),
        Err(e) => Err(e),
    }
}

/// Kilobytes in megabytes, rounded to the nearest; a half goes to the even
/// neighbour.
pub open spec fn spec_round_to_mb(kb: u64) -> u64 {
    if kb % 1000 > 500 || (kb % 1000 == 500 && (kb / 1000) % 2 == 1) {
        (kb / 1000 + 1) as u64
    } else {
        kb / 1000
    }
}

/// The usage that a total and an available amount give. Each is rounded by
/// itself; a difference below 0 counts as 0.
pub open spec fn spec_memory_usage(total_kb: u64, available_kb: u64) -> MemoryUsage {
    let total_mb = spec_round_to_mb(total_kb);
    let available_mb = spec_round_to_mb(available_kb);
    MemoryUsage {
        used_mb: if total_mb >= available_mb {
            (total_mb - available_mb) as u64
        } else {
            0
        },
        total_mb,
    }
}

/// The unsigned integer `offset` tokens behind the first `label`.
pub open spec fn spec_labelled_u64(tokens: Seq<Seq<u8>>, label: Seq<u8>, offset: int) -> Result<
    u64,
    SampleError,
> {
    match spec_field_after(tokens, label, offset) {
        Ok(token) => spec_parse_u64(token),
        Err(e) => Err(e),
    }
}

/// The RAM usage that the tokens of the memory table give. The total is
/// looked up first, so its failure is the one reported.
pub open spec fn spec_ram_of_tokens(tokens: Seq<Seq<u8>>) -> Result<MemoryUsage, SampleError> {
    match spec_labelled_u64(tokens, spec_mem_total_label(), 1) {
        Err(e) => Err(e),
        Ok(total_kb) => match spec_labelled_u64(tokens, spec_mem_available_label(), 1) {
            Err(e) => Err(e),
            Ok(available_kb) => Ok(spec_memory_usage(total_kb, available_kb)),
        },
    }
}

/// The RAM usage that the memory table gives: the table is split at spaces
/// and newlines, empty tokens dropped.
pub open spec fn spec_ram(text: Seq<u8>) -> Result<MemoryUsage, SampleError> {
    spec_ram_of_tokens(spec_tokens(text, spec_table_delims(), true))
}

/// The counters of the cores 0 to `cores - 1`, each the token behind the
/// core's label. The failure of the lowest core that fails is the one
/// reported.
pub open spec fn spec_core_counters(tokens: Seq<Seq<u8>>, cores: nat) -> Result<
    Seq<u64>,
    SampleError,
>
    decreases cores,
{
    if cores == 0 {
        Ok(Seq::<u64>::empty())
    } else {
        match spec_core_counters(tokens, (cores - 1) as nat) {
            Err(e) => Err(e),
            Ok(below) => match spec_labelled_u64(tokens, spec_core_label((cores - 1) as nat), 1) {
                Err(e) => Err(e),
                Ok(counter) => Ok(below.push(counter)),
            },
        }
    }
}

/// The snapshot that the statistics table gives: the table is split at
/// spaces and newlines, empty tokens kept; the aggregate counter stands
/// `total_offset` tokens behind `cpu`; the cores follow.
pub open spec fn spec_cpu_load(text: Seq<u8>, layout: StatLayout) -> Result<
    LoadView,
    SampleError,
> {
    let tokens = spec_split(text, spec_table_delims());
    match spec_labelled_u64(tokens, spec_cpu_label(), layout.total_offset as int) {
        Err(e) => Err(e),
        Ok(total) => match spec_core_counters(tokens, layout.cores as nat) {
            Err(e) => Err(e),
            Ok(cores) => Ok(LoadView { total, cores }),
        },
    }
}

/// Reads the GPU temperature out of the probe's answer, such as
/// `temp=45.6'C`.
pub fn parse_gpu_temp(text: &[u8]) -> (temp: Result<Temperature, SampleError>)
    ensures
        temp == spec_gpu_temp(text@),
{
    let delims: [u8; 2] = [EQUALS, APOSTROPHE];
    assert(delims@ =~= spec_probe_delims());
    let tokens: Vec<Vec<u8>> = split(text, &delims, false);
    match field_at(&tokens, 1) {
        Ok(token) => match parse_thousandths(token.as_slice()) {
            Ok(millidegrees) => Ok(Temperature { millidegrees }),
            Err(e) => Err(e),
        },
        Err(e) => Err(e),
    }
}

/// Reads the CPU temperature out of the thermal file, which holds
/// millidegrees as one number.
pub fn parse_cpu_temp(text: &[u8]) -> (temp: Result<Temperature, SampleError>)
    ensures
        temp == spec_cpu_temp(text@),
{
    match parse_whole(trim_end(text)) {
        Ok(millidegrees) => Ok(Temperature { millidegrees }),
        Err(e) => Err(e),
    }
}

/// Kilobytes in megabytes of 1000, rounded to the nearest, a half to the
/// even neighbour.
pub fn round_to_mb(kb: u64) -> (mb: u64)
    ensures
        mb == spec_round_to_mb(kb),
{
    let whole: u64 = kb / 1000;
    let rest: u64 = kb % 1000;
    if rest > 500 || (rest == 500 && whole % 2 == 1) {
        whole + 1
    } else {
        whole
    }
}

/// The usage that a total and an available amount of kilobytes give.
pub fn memory_usage(total_kb: u64, available_kb: u64) -> (usage: MemoryUsage)
    ensures
        usage == spec_memory_usage(total_kb, available_kb),
        usage.total_mb >= usage.used_mb,
{
    let total_mb: u64 = round_to_mb(total_kb);
    let available_mb: u64 = round_to_mb(available_kb);
    let used_mb: u64 = if total_mb >= available_mb {
        total_mb - available_mb
    } else {
        0
    };
    MemoryUsage { used_mb, total_mb }
}

/// The unsigned integer `offset` tokens behind the first token equal to
/// `label`.
pub fn labelled_u64(tokens: &Vec<Vec<u8>>, label: &[u8], offset: usize) -> (value: Result<
    u64,
    SampleError,
>)
    ensures
        value == spec_labelled_u64(token_views(tokens@), label@, offset as int),
{
    match field_after(tokens, label, offset) {
        Ok(token) => parse_u64(token.as_slice()),
        Err(e) => Err(e),
    }
}

/// Reads the RAM usage out of the memory table, by its lines `MemTotal:`
/// and `MemAvailable:`.
pub fn parse_ram(text: &[u8]) -> (usage: Result<MemoryUsage, SampleError>)
    ensures
        usage == spec_ram(text@),
{
    let delims: [u8; 2] = [SPACE, NEWLINE];
    assert(delims@ =~= spec_table_delims());
    let tokens: Vec<Vec<u8>> = split(text, &delims, true);
    let total_label: [u8; 9] = [77, 101, 109, 84, 111, 116, 97, 108, 58];
    assert(total_label@ =~= spec_mem_total_label());
    let available_label: [u8; 13] = [77, 101, 109, 65, 118, 97, 105, 108, 97, 98, 108, 101, 58];
    assert(available_label@ =~= spec_mem_available_label());
    let total_kb: u64 = match labelled_u64(&tokens, &total_label, 1) {
        Ok(kb) => kb,
        Err(e) => {
            return Err(e);
        },
    };
    match labelled_u64(&tokens, &available_label, 1) {
        Ok(available_kb) => Ok(memory_usage(total_kb, available_kb)),
        Err(e) => Err(e),
    }
}

/// The label of a core's line in the statistics table.
pub fn core_label(core: usize) -> (label: Vec<u8>)
    ensures
        label@ == spec_core_label(core as nat),
{
    let mut label: Vec<u8> = vec![99u8, 112u8, 117u8];
    assert(label@ =~= spec_cpu_label());
    push_decimal(&mut label, core as u64);
    label
}

/// Reads the aggregate counter and the counters of the first
/// `layout.cores` cores out of the statistics table.
pub fn parse_cpu_load(text: &[u8], layout: StatLayout) -> (snapshot: Result<
    CpuLoadSnapshot,
    SampleError,
>)
    ensures
        match snapshot {
            Ok(s) => spec_cpu_load(text@, layout) == Ok::<LoadView, SampleError>(s@),
            Err(e) => spec_cpu_load(text@, layout) == Err::<LoadView, SampleError>(e),
        },
{
    let delims: [u8; 2] = [SPACE, NEWLINE];
    assert(delims@ =~= spec_table_delims());
    let tokens: Vec<Vec<u8>> = split(text, &delims, false);
    let cpu_label: [u8; 3] = [99, 112, 117];
    assert(cpu_label@ =~= spec_cpu_label());
    let total: u64 = match labelled_u64(&tokens, &cpu_label, layout.total_offset) {
        Ok(counter) => counter,
        Err(e) => {
            return Err(e);
        },
    };
    let ghost views = token_views(tokens@);
    let mut cores: Vec<u64> = Vec::new();
    let mut core: usize = 0;
    while core < layout.cores
        invariant
            core <= layout.cores,
            views == token_views(tokens@),
            views == spec_split(text@, spec_table_delims()),
            spec_labelled_u64(views, spec_cpu_label(), layout.total_offset as int) == Ok::<
                u64,
                SampleError,
            >(total),
            spec_core_counters(views, core as nat) == Ok::<Seq<u64>, SampleError>(cores@),
        decreases layout.cores - core,
    {
        let label: Vec<u8> = core_label(core);
        match labelled_u64(&tokens, label.as_slice(), 1) {
            Ok(counter) => {
                cores.push(counter);
            },
            Err(e) => {
                proof {
                    assert(spec_core_counters(views, (core + 1) as nat) == Err::<
                        Seq<u64>,
                        SampleError,
                    >(e));
                    lemma_core_failure_stays(views, (core + 1) as nat, layout.cores as nat);
                }
                return Err(e);
            },
        }
        core += 1;
    }
    Ok(CpuLoadSnapshot { total, cores })
}

/// Once the cores below `failed` cannot all be read, reading more of them
/// reports the same failure.
pub proof fn lemma_core_failure_stays(tokens: Seq<Seq<u8>>, failed: nat, cores: nat)
    requires
        failed <= cores,
        spec_core_counters(tokens, failed) is Err,
    ensures
        spec_core_counters(tokens, cores) == spec_core_counters(tokens, failed),
    decreases cores,
{
    if failed < cores {
        lemma_core_failure_stays(tokens, failed, (cores - 1) as nat);
    }
}

} // verus!

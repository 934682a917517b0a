//! What holds of the readers on every input of a given form.

use crate::delta::LoadDeltaState;
use crate::error::SampleError;
use crate::fields::{
    lemma_first_occurrence, lemma_split_concat, lemma_split_plain, lemma_tokens_across_run,
    spec_first_occurrence, spec_keep_nonempty, spec_split, spec_tokens,
};
use crate::metrics::{
    lemma_core_failure_stays, spec_core_counters, spec_core_label, spec_cpu_label, spec_cpu_load,
    spec_cpu_temp, spec_gpu_temp, spec_labelled_u64, spec_memory_usage, spec_probe_delims,
    spec_ram, spec_round_to_mb, spec_table_delims, LoadView, StatLayout, Temperature, APOSTROPHE,
    EQUALS,
};
use crate::number::{
    all_digits, digits_value, is_digit, lemma_decimal_round_trip, lemma_no_point_in_digits,
    lemma_point_behind_digits, lemma_three_places_are_exact, spec_decimal, spec_fraction_part,
    spec_parse_thousandths, spec_places_thousandths, spec_strip_plus, spec_strip_sign,
    spec_whole_part, POINT,
};
use crate::poll::{spec_cycle, spec_interval, ReadingsView};
use crate::trim::{is_space_run, lemma_trim_end_run, lemma_trim_start_run, spec_space_at_end};
use vstd::prelude::*;

verus! {

/// An answer of the GPU probe: `temp=`, the digits before the point, `.`,
/// the digits behind it, `'`, and what follows (the unit, as a rule).
pub open spec fn spec_probe_answer(whole: Seq<u8>, fraction: Seq<u8>, unit: Seq<u8>) -> Seq<u8> {
    seq![116u8, 101u8, 109u8, 112u8] + seq![EQUALS] + (whole + seq![POINT] + fraction + seq![
        APOSTROPHE,
    ] + unit)
}

/// An answer `temp=W.F'` of the GPU probe, W and F digits and F of at most
/// three places, reads as exactly the temperature that the decimal W.F
/// denotes, whatever follows the `'`. Zeros at the front of W and at the
/// end of F change nothing of it.
pub proof fn lemma_gpu_probe_decimal(whole: Seq<u8>, fraction: Seq<u8>, unit: Seq<u8>)
    requires
        all_digits(whole),
        all_digits(fraction),
        whole.len() + fraction.len() > 0,
        fraction.len() <= 3,
        digits_value(whole) * 1000 + spec_places_thousandths(fraction) <= i64::MAX,
    ensures
        spec_gpu_temp(spec_probe_answer(whole, fraction, unit)) == Ok::<Temperature, SampleError>(
            Temperature {
                millidegrees: (digits_value(whole) * 1000 + spec_places_thousandths(
                    fraction,
                )) as i64,
            },
        ),
{
    let delims = spec_probe_delims();
    let name = seq![116u8, 101u8, 109u8, 112u8];
    let token = whole + seq![POINT] + fraction;
    assert(delims.contains(EQUALS)) by {
        assert(delims[0] == EQUALS);
    }
    assert(delims.contains(APOSTROPHE)) by {
        assert(delims[1] == APOSTROPHE);
    }
    assert forall|i: int| 0 <= i < name.len() implies !delims.contains(#[trigger] name[i]) by {}
    assert forall|i: int| 0 <= i < token.len() implies !delims.contains(#[trigger] token[i]) by {
        if i < whole.len() {
            assert(token[i] == whole[i]);
            assert(is_digit(whole[i]));
        } else if i > whole.len() {
            assert(token[i] == fraction[i - whole.len() - 1]);
            assert(is_digit(fraction[i - whole.len() - 1]));
        }
    }
    lemma_split_plain(name, delims);
    lemma_split_plain(token, delims);
    lemma_split_concat(name, EQUALS, token + seq![APOSTROPHE] + unit, delims);
    lemma_split_concat(token, APOSTROPHE, unit, delims);
    assert(spec_probe_answer(whole, fraction, unit) =~= name + seq![EQUALS] + (token + seq![
        APOSTROPHE,
    ] + unit));
    let tokens = spec_split(spec_probe_answer(whole, fraction, unit), delims);
    assert(tokens == seq![name] + (seq![token] + spec_split(unit, delims)));
    assert(tokens.len() >= 2);
    assert(tokens[1] == token);

    if whole.len() > 0 {
        assert(token[0] == whole[0]);
        assert(is_digit(whole[0]));
    }
    assert(spec_strip_sign(token) == token);
    lemma_point_behind_digits(whole, fraction);
    assert(spec_whole_part(token) =~= whole);
    assert(spec_fraction_part(token) =~= fraction);
    lemma_three_places_are_exact(fraction);
    assert(spec_parse_thousandths(token) == Ok::<i64, SampleError>(
        (digits_value(whole) * 1000 + spec_places_thousandths(fraction)) as i64,
    ));
}

/// The answer `temp=X.Y'` that the probe gives for X degrees and Y tenths
/// reads as X.Y degrees.
pub proof fn lemma_gpu_probe_answer(degrees: nat, tenths: nat, unit: Seq<u8>)
    requires
        tenths <= 9,
        degrees * 1000 + tenths * 100 <= i64::MAX,
    ensures
        spec_gpu_temp(spec_probe_answer(spec_decimal(degrees), spec_decimal(tenths), unit)) == Ok::<
            Temperature,
            SampleError,
        >(Temperature { millidegrees: (degrees * 1000 + tenths * 100) as i64 }),
{
    lemma_decimal_round_trip(degrees);
    lemma_decimal_round_trip(tenths);
    lemma_gpu_probe_decimal(spec_decimal(degrees), spec_decimal(tenths), unit);
}

/// A thermal file that holds a number of millidegrees in decimal notation,
/// with or without white space behind it, reads as that number.
pub proof fn lemma_cpu_thermal_reading(millidegrees: nat, space: Seq<u8>)
    requires
        millidegrees <= i64::MAX,
        is_space_run(space),
    ensures
        spec_cpu_temp(spec_decimal(millidegrees) + space) == Ok::<Temperature, SampleError>(
            Temperature { millidegrees: millidegrees as i64 },
        ),
{
    let digits = spec_decimal(millidegrees);
    lemma_decimal_round_trip(millidegrees);
    assert(is_digit(digits[digits.len() - 1]));
    assert(is_digit(digits[0]));
    lemma_trim_end_run(digits, space);
    assert(spec_strip_sign(digits) == digits);
    lemma_no_point_in_digits(digits);
    assert(spec_whole_part(digits) =~= digits);
    assert(spec_fraction_part(digits) =~= Seq::<u8>::empty());
}

/// A thermal file that holds a decimal of millidegrees, W.F with W and F
/// digits, reads as W millidegrees: less than a millidegree is lost.
pub proof fn lemma_cpu_thermal_decimal(whole: Seq<u8>, fraction: Seq<u8>, space: Seq<u8>)
    requires
        all_digits(whole),
        all_digits(fraction),
        whole.len() + fraction.len() > 0,
        digits_value(whole) <= i64::MAX,
        is_space_run(space),
    ensures
        spec_cpu_temp(whole + seq![POINT] + fraction + space) == Ok::<Temperature, SampleError>(
            Temperature { millidegrees: digits_value(whole) as i64 },
        ),
{
    let token = whole + seq![POINT] + fraction;
    if fraction.len() > 0 {
        assert(token[token.len() - 1] == fraction[fraction.len() - 1]);
        assert(is_digit(fraction[fraction.len() - 1]));
    } else {
        assert(token[token.len() - 1] == POINT);
    }
    lemma_trim_end_run(token, space);
    if whole.len() > 0 {
        assert(token[0] == whole[0]);
        assert(is_digit(whole[0]));
    }
    assert(spec_strip_sign(token) == token);
    lemma_point_behind_digits(whole, fraction);
    assert(spec_whole_part(token) =~= whole);
    assert(spec_fraction_part(token) =~= fraction);
}

/// The interval that a line asks for does not depend on the white space
/// around the number: a positive number in decimal notation between two
/// runs of white space is the interval.
pub proof fn lemma_interval_ignores_space(secs: nat, before: Seq<u8>, behind: Seq<u8>)
    requires
        0 < secs <= u64::MAX,
        is_space_run(before),
        is_space_run(behind),
    ensures
        spec_interval(before + spec_decimal(secs) + behind) == secs,
{
    let digits = spec_decimal(secs);
    lemma_decimal_round_trip(secs);
    assert(is_digit(digits[digits.len() - 1]));
    assert(is_digit(digits[0]));
    lemma_trim_start_run(before, digits);
    assert(spec_space_at_end(before + digits) == 0) by {
        let joined = before + digits;
        assert(joined[joined.len() - 1] == digits[digits.len() - 1]);
    }
    lemma_trim_end_run(before + digits, behind);
    assert(spec_strip_plus(digits) == digits);
}

/// The RAM usage does not depend on how long a run of spaces and newlines
/// in the memory table is, as long as there is one.
pub proof fn lemma_ram_ignores_run_length(
    before: Seq<u8>,
    run: Seq<u8>,
    other_run: Seq<u8>,
    behind: Seq<u8>,
)
    requires
        run.len() > 0,
        other_run.len() > 0,
        forall|i: int| 0 <= i < run.len() ==> spec_table_delims().contains(#[trigger] run[i]),
        forall|i: int|
            0 <= i < other_run.len() ==> spec_table_delims().contains(#[trigger] other_run[i]),
    ensures
        spec_ram(before + run + behind) == spec_ram(before + other_run + behind),
{
    lemma_tokens_across_run(before, run, behind, spec_table_delims());
    lemma_tokens_across_run(before, other_run, behind, spec_table_delims());
}

/// The RAM usage does not depend on spaces and newlines before the first
/// line of the memory table or behind its last.
pub proof fn lemma_ram_ignores_outer_space(run: Seq<u8>, table: Seq<u8>)
    requires
        forall|i: int| 0 <= i < run.len() ==> spec_table_delims().contains(#[trigger] run[i]),
    ensures
        spec_ram(run + table) == spec_ram(table),
        spec_ram(table + run) == spec_ram(table),
{
    let delims = spec_table_delims();
    let nothing = Seq::<u8>::empty();
    if run.len() == 0 {
        assert(run + table =~= table);
        assert(table + run =~= table);
    } else {
        lemma_tokens_across_run(nothing, run, table, delims);
        lemma_tokens_across_run(table, run, nothing, delims);
        assert(nothing + run + table =~= run + table);
        assert(table + run + nothing =~= table + run);
        assert(spec_split(nothing, delims) =~= seq![nothing]);
        assert(spec_keep_nonempty(seq![nothing].drop_last()) =~= Seq::<Seq<u8>>::empty());
        assert(spec_tokens(nothing, delims, true) =~= Seq::<Seq<u8>>::empty());
        assert(spec_tokens(nothing, delims, true) + spec_tokens(table, delims, true)
            =~= spec_tokens(table, delims, true));
        assert(spec_tokens(table, delims, true) + spec_tokens(nothing, delims, true)
            =~= spec_tokens(table, delims, true));
    }
}

/// Rounding to megabytes goes to a nearest megabyte: the result is at most
/// half a megabyte away.
pub proof fn lemma_round_to_mb_nearest(kb: u64)
    ensures
        spec_round_to_mb(kb) * 1000 - kb <= 500,
        kb - spec_round_to_mb(kb) * 1000 <= 500,
{
}

/// Rounding to megabytes keeps the order.
pub proof fn lemma_round_to_mb_monotone(smaller_kb: u64, larger_kb: u64)
    requires
        smaller_kb <= larger_kb,
    ensures
        spec_round_to_mb(smaller_kb) <= spec_round_to_mb(larger_kb),
{
}

/// The memory in use is the difference of the two rounded amounts where
/// that is not below 0, and 0 where it is; some memory is available beyond
/// the total exactly then. It is never more than the total.
pub proof fn lemma_used_is_clamped(total_kb: u64, available_kb: u64)
    ensures
        spec_memory_usage(total_kb, available_kb).total_mb == spec_round_to_mb(total_kb),
        spec_round_to_mb(total_kb) >= spec_round_to_mb(available_kb) ==> spec_memory_usage(
            total_kb,
            available_kb,
        ).used_mb == spec_round_to_mb(total_kb) - spec_round_to_mb(available_kb),
        spec_round_to_mb(total_kb) < spec_round_to_mb(available_kb) ==> spec_memory_usage(
            total_kb,
            available_kb,
        ).used_mb == 0,
        spec_memory_usage(total_kb, available_kb).used_mb <= spec_memory_usage(
            total_kb,
            available_kb,
        ).total_mb,
        total_kb >= available_kb ==> spec_memory_usage(total_kb, available_kb).used_mb
            == spec_round_to_mb(total_kb) - spec_round_to_mb(available_kb),
{
    if total_kb >= available_kb {
        lemma_round_to_mb_monotone(available_kb, total_kb);
    }
}

/// A statistics table without the label of a core that is asked for gives
/// no snapshot. Where the aggregate counter and the cores below that one
/// can be read, the failure is `LabelNotFound`.
pub proof fn lemma_missing_core_label(text: Seq<u8>, layout: StatLayout, core: nat)
    requires
        core < layout.cores,
        !spec_split(text, spec_table_delims()).contains(spec_core_label(core)),
    ensures
        spec_cpu_load(text, layout) is Err,
        spec_labelled_u64(
            spec_split(text, spec_table_delims()),
            spec_cpu_label(),
            layout.total_offset as int,
        ) is Ok && spec_core_counters(spec_split(text, spec_table_delims()), core) is Ok
            ==> spec_cpu_load(text, layout) == Err::<LoadView, SampleError>(
            SampleError::LabelNotFound,
        ),
{
    let tokens = spec_split(text, spec_table_delims());
    let label = spec_core_label(core);
    lemma_first_occurrence(tokens, label);
    let at = spec_first_occurrence(tokens, label);
    if at < tokens.len() {
        assert(tokens.contains(tokens[at]));
    }
    assert(spec_labelled_u64(tokens, label, 1) == Err::<u64, SampleError>(
        SampleError::LabelNotFound,
    ));
    assert(spec_core_counters(tokens, core + 1) is Err);
    lemma_core_failure_stays(tokens, core + 1, layout.cores as nat);
}

/// What a cycle reports of one metric depends on that metric's source
/// alone: two cycles that got the same capture from a source report the
/// same of it, whatever the other sources delivered.
pub proof fn lemma_failures_are_confined(
    readings: ReadingsView,
    other: ReadingsView,
    layout: StatLayout,
    state: LoadDeltaState,
)
    ensures
        readings.gpu_probe == other.gpu_probe ==> spec_cycle(readings, layout, state).gpu_temp
            == spec_cycle(other, layout, state).gpu_temp,
        readings.cpu_thermal == other.cpu_thermal ==> spec_cycle(readings, layout, state).cpu_temp
            == spec_cycle(other, layout, state).cpu_temp,
        readings.meminfo == other.meminfo ==> spec_cycle(readings, layout, state).ram
            == spec_cycle(other, layout, state).ram,
        readings.stat == other.stat ==> spec_cycle(readings, layout, state).load == spec_cycle(
            other,
            layout,
            state,
        ).load && spec_cycle(readings, layout, state).total_delta == spec_cycle(
            other,
            layout,
            state,
        ).total_delta,
{
}

} // verus!

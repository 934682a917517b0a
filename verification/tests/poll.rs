use pi_telemetry::delta::LoadDeltaState;
use pi_telemetry::error::SampleError;
use pi_telemetry::metrics::{CpuLoadSnapshot, MemoryUsage, StatLayout, Temperature};
use pi_telemetry::poll::{
    interval_from_input, run_cycle, sample_cpu_temp, sample_gpu_temp, sample_load, sample_ram,
    Action, CycleReport, Event, Phase, Poller, Readings, DEFAULT_INTERVAL,
};

const LAYOUT: StatLayout = StatLayout { total_offset: 1, cores: 0 };

fn readings(gpu: &str, cpu: &str, mem: &str, stat: &str) -> Readings {
    Readings {
        gpu_probe: Some(gpu.as_bytes().to_vec()),
        cpu_thermal: Some(cpu.as_bytes().to_vec()),
        meminfo: Some(mem.as_bytes().to_vec()),
        stat: Some(stat.as_bytes().to_vec()),
    }
}

fn good(stat: &str) -> Readings {
    readings(
        "temp=45.6'C\n",
        "45678\n",
        "MemTotal: 8000000 kB\nMemAvailable: 6000000 kB\n",
        stat,
    )
}

#[test]
fn interval_is_the_positive_integer_typed() {
    assert_eq!(interval_from_input(b"5\n"), 5);
    assert_eq!(interval_from_input(b"  10  \r\n"), 10);
    assert_eq!(interval_from_input(b"1"), 1);
    assert_eq!(interval_from_input(b"+3\n"), 3);
    assert_eq!(interval_from_input(b"18446744073709551615\n"), u64::MAX);
}

#[test]
fn interval_ignores_any_white_space_around_the_number() {
    assert_eq!(interval_from_input("5\u{a0}\n".as_bytes()), 5);
    assert_eq!(interval_from_input("5\u{3000}\n".as_bytes()), 5);
    assert_eq!(interval_from_input("\u{2003}\u{a0}12\u{85}\u{2028}\r\n".as_bytes()), 12);
    assert_eq!(interval_from_input("\u{1680}7".as_bytes()), 7);
}

#[test]
fn interval_agrees_with_the_standard_trim_and_reader() {
    for line in ["5\n", " 5 ", "5\u{a0}\n", "\u{3000}9\u{205f}", "0\u{a0}", "5\u{200b}\n",
        "\u{feff}5\n", "5 \u{a0} 6\n", "+4\u{2029}", "\u{a0}", "", "x\u{a0}"]
    {
        let expected = match line.trim().parse::<u64>() {
            Ok(secs) if secs > 0 => secs,
            _ => 2,
        };
        assert_eq!(interval_from_input(line.as_bytes()), expected, "{:?}", line);
    }
}

#[test]
fn interval_falls_back_to_two_seconds() {
    assert_eq!(DEFAULT_INTERVAL, 2);
    for line in ["\n", "", "0\n", "-1\n", "abc\n", "2.5\n", "1 2\n", "18446744073709551616\n"] {
        assert_eq!(interval_from_input(line.as_bytes()), 2, "{:?}", line);
    }
}

#[test]
fn end_to_end_two_successive_cycles() {
    let mut state = LoadDeltaState::new();
    let first = run_cycle(&good("cpu 1000 20 300\n"), LAYOUT, &mut state);
    assert_eq!(first.gpu_temp, Ok(Temperature { millidegrees: 45600 }));
    assert_eq!(first.cpu_temp, Ok(Temperature { millidegrees: 45678 }));
    assert_eq!(first.ram, Ok(MemoryUsage { used_mb: 2000, total_mb: 8000 }));
    assert_eq!(first.load, Ok(CpuLoadSnapshot { total: 1000, cores: vec![] }));
    assert_eq!(first.total_delta, 0);
    assert_eq!(state.previous_total(), Some(1000));

    let second = run_cycle(&good("cpu 1200 25 310\n"), LAYOUT, &mut state);
    assert_eq!(second.load, Ok(CpuLoadSnapshot { total: 1200, cores: vec![] }));
    assert_eq!(second.total_delta, 200);
    assert_eq!(state.previous_total(), Some(1200));

    let gpu = first.gpu_temp.unwrap().millidegrees as f64 / 1000.0;
    let cpu = first.cpu_temp.unwrap().millidegrees as f64 / 1000.0;
    assert!((gpu - 45.6).abs() < 1e-9);
    assert!((cpu - 45.678).abs() < 1e-9);
}

#[test]
fn a_counter_that_went_back_gives_no_delta() {
    let mut state = LoadDeltaState::new();
    run_cycle(&good("cpu 1200\n"), LAYOUT, &mut state);
    let report = run_cycle(&good("cpu 1000\n"), LAYOUT, &mut state);
    assert_eq!(report.total_delta, 0);
    assert_eq!(state.previous_total(), Some(1000));
}

#[test]
fn a_missing_core_label_fails_the_load_and_nothing_else() {
    let layout = StatLayout { total_offset: 2, cores: 4 };
    let stat = "cpu  1000 20\ncpu0 250\ncpu1 251\ncpu3 253\n";
    let mut state = LoadDeltaState::new();
    state.observe(900);
    let report = run_cycle(&good(stat), layout, &mut state);
    assert_eq!(
        report,
        CycleReport {
            gpu_temp: Ok(Temperature { millidegrees: 45600 }),
            cpu_temp: Ok(Temperature { millidegrees: 45678 }),
            ram: Ok(MemoryUsage { used_mb: 2000, total_mb: 8000 }),
            load: Err(SampleError::LabelNotFound),
            total_delta: 0,
        }
    );
    assert_eq!(state.previous_total(), Some(900));
}

#[test]
fn each_metric_fails_by_itself() {
    let mut state = LoadDeltaState::new();
    let report = run_cycle(
        &Readings {
            gpu_probe: None,
            cpu_thermal: Some(vec![b'4', 0xff]),
            meminfo: Some(b"MemTotal: 8000000 kB\n".to_vec()),
            stat: Some(b"cpu 1000\n".to_vec()),
        },
        LAYOUT,
        &mut state,
    );
    assert_eq!(report.gpu_temp, Err(SampleError::SourceUnavailable));
    assert_eq!(report.cpu_temp, Err(SampleError::EncodingError));
    assert_eq!(report.ram, Err(SampleError::LabelNotFound));
    assert_eq!(report.load, Ok(CpuLoadSnapshot { total: 1000, cores: vec![] }));
    assert_eq!(report.total_delta, 0);

    let report = run_cycle(
        &Readings {
            gpu_probe: Some(b"temp=warm'C".to_vec()),
            cpu_thermal: Some(b"45678\n".to_vec()),
            meminfo: None,
            stat: Some(b"cpu\n".to_vec()),
        },
        LAYOUT,
        &mut state,
    );
    assert_eq!(report.gpu_temp, Err(SampleError::ParseError));
    assert_eq!(report.cpu_temp, Ok(Temperature { millidegrees: 45678 }));
    assert_eq!(report.ram, Err(SampleError::SourceUnavailable));
    assert_eq!(report.load, Err(SampleError::ParseError));
    assert_eq!(report.total_delta, 0);
    assert_eq!(state.previous_total(), Some(1000));
}

#[test]
fn samplers_decode_before_they_read() {
    assert_eq!(sample_gpu_temp(&None), Err(SampleError::SourceUnavailable));
    assert_eq!(sample_cpu_temp(&None), Err(SampleError::SourceUnavailable));
    assert_eq!(sample_ram(&None), Err(SampleError::SourceUnavailable));
    assert_eq!(sample_load(&None, LAYOUT), Err(SampleError::SourceUnavailable));
    let broken = Some(vec![b't', b'e', b'm', b'p', b'=', b'1', b'\'', 0xc3]);
    assert_eq!(sample_gpu_temp(&broken), Err(SampleError::EncodingError));
    assert_eq!(sample_cpu_temp(&Some(vec![b'1', 0x80])), Err(SampleError::EncodingError));
    assert_eq!(sample_ram(&Some(vec![0xfe])), Err(SampleError::EncodingError));
    assert_eq!(sample_load(&Some(vec![0xfe]), LAYOUT), Err(SampleError::EncodingError));
    assert_eq!(
        sample_gpu_temp(&Some(b"temp=45.6'C".to_vec())),
        Ok(Temperature { millidegrees: 45600 })
    );
}

#[test]
fn poller_starts_out_sampling() {
    let poller = Poller::new(5, LAYOUT);
    assert_eq!(poller.phase(), Phase::Sampling);
    assert_eq!(poller.interval_secs(), 5);
    assert_eq!(poller.previous_total(), None);
}

#[test]
fn poller_replaces_a_pause_of_zero() {
    assert_eq!(Poller::new(0, LAYOUT).interval_secs(), 2);
    assert_eq!(Poller::new(1, LAYOUT).interval_secs(), 1);
}

#[test]
fn poller_alternates_sampling_and_rest() {
    let mut poller = Poller::new(3, LAYOUT);
    let action = poller.step(Event::Sampled(good("cpu 1000\n")));
    match action {
        Action::Render { report, sleep_secs } => {
            assert_eq!(sleep_secs, 3);
            assert_eq!(report.total_delta, 0);
            assert_eq!(report.load, Ok(CpuLoadSnapshot { total: 1000, cores: vec![] }));
        }
        other => panic!("unexpected action {:?}", other),
    }
    assert_eq!(poller.phase(), Phase::Idle);
    assert_eq!(poller.previous_total(), Some(1000));

    assert_eq!(poller.step(Event::Elapsed), Action::Sample);
    assert_eq!(poller.phase(), Phase::Sampling);

    let action = poller.step(Event::Sampled(good("cpu 1200\n")));
    match action {
        Action::Render { report, sleep_secs } => {
            assert_eq!(sleep_secs, 3);
            assert_eq!(report.total_delta, 200);
        }
        other => panic!("unexpected action {:?}", other),
    }
    assert_eq!(poller.phase(), Phase::Idle);
    assert_eq!(poller.previous_total(), Some(1200));
}

#[test]
fn poller_goes_to_rest_when_everything_failed() {
    let mut poller = Poller::new(2, LAYOUT);
    let nothing = Readings { gpu_probe: None, cpu_thermal: None, meminfo: None, stat: None };
    let action = poller.step(Event::Sampled(nothing));
    assert_eq!(
        action,
        Action::Render {
            report: CycleReport {
                gpu_temp: Err(SampleError::SourceUnavailable),
                cpu_temp: Err(SampleError::SourceUnavailable),
                ram: Err(SampleError::SourceUnavailable),
                load: Err(SampleError::SourceUnavailable),
                total_delta: 0,
            },
            sleep_secs: 2,
        }
    );
    assert_eq!(poller.phase(), Phase::Idle);
    assert_eq!(poller.previous_total(), None);
}

#[test]
fn poller_ignores_an_event_out_of_turn() {
    let mut poller = Poller::new(4, LAYOUT);
    assert_eq!(poller.step(Event::Elapsed), Action::Sample);
    assert_eq!(poller.phase(), Phase::Sampling);
    assert_eq!(poller, Poller::new(4, LAYOUT));

    poller.step(Event::Sampled(good("cpu 1000\n")));
    let before = poller;
    assert_eq!(poller.step(Event::Sampled(good("cpu 5000\n"))), Action::Wait { sleep_secs: 4 });
    assert_eq!(poller, before);
    assert_eq!(poller.phase(), Phase::Idle);
    assert_eq!(poller.previous_total(), Some(1000));
}
